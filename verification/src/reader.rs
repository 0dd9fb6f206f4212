use vstd::prelude::*;
use crate::chars::{CharClass, class_contains, span_len};

verus! {

/// A position in a text: 1-based line and column.
#[derive(Clone, Copy, Debug, PartialEq, Eq, Default)]
pub struct Pos {
    pub line: usize,
    pub column: usize,
}

impl Pos {
    pub fn new(line: usize, column: usize) -> (p: Pos)
        ensures
            p.line == line,
            p.column == column,
    {
        Pos { line, column }
    }
}

/// The span of a syntax element, from its first position to the position
/// just after it.
#[derive(Clone, Copy, Debug, PartialEq, Eq, Default)]
pub struct SourceInfo {
    pub start: Pos,
    pub end: Pos,
}

impl SourceInfo {
    pub fn new(start: Pos, end: Pos) -> (s: SourceInfo)
        ensures
            s.start == start,
            s.end == end,
    {
        SourceInfo { start, end }
    }
}

/// Where a reader stands: the index of the next character and its position.
#[derive(Clone, Copy, Debug, PartialEq, Eq)]
pub struct ReaderState {
    pub cursor: usize,
    pub pos: Pos,
}

/// Characters of the Combining Diacritical Marks block (strictly inside
/// U+0300..U+036F) take no column of their own.
pub open spec fn is_combining_mark(c: char) -> bool {
    0x0300u32 < (c as u32) && (c as u32) < 0x036Fu32
}

/// The position that follows `p` once `c` has been read.
pub open spec fn next_pos(p: Pos, c: char) -> Pos {
    if c == '\n' {
        Pos { line: (p.line + 1) as usize, column: 1 }
    } else if is_combining_mark(c) {
        p
    } else {
        Pos { line: p.line, column: (p.column + 1) as usize }
    }
}

/// The position reached from `p` after reading all of `s`.
pub open spec fn pos_after(p: Pos, s: Seq<char>) -> Pos
    decreases s.len(),
{
    if s.len() == 0 {
        p
    } else {
        next_pos(pos_after(p, s.drop_last()), s.last())
    }
}

/// A state is usable on `text` when its cursor lies in the text and reading
/// the rest of the text cannot overflow its line or column.
pub open spec fn state_ok(text: Seq<char>, st: ReaderState) -> bool {
    &&& st.cursor <= text.len() <= usize::MAX
    &&& st.pos.line + (text.len() - st.cursor) <= usize::MAX
    &&& st.pos.column + (text.len() - st.cursor) <= usize::MAX
}

/// `b` is reached from `a` by reading the text between their cursors.
pub open spec fn advanced(text: Seq<char>, a: ReaderState, b: ReaderState) -> bool {
    &&& a.cursor <= b.cursor <= text.len()
    &&& b.pos == pos_after(a.pos, text.subrange(a.cursor as int, b.cursor as int))
}

/// The state after reading `n` more characters from `st`.
pub open spec fn skip_n(text: Seq<char>, st: ReaderState, n: nat) -> ReaderState {
    ReaderState {
        cursor: (st.cursor + n) as usize,
        pos: pos_after(st.pos, text.subrange(st.cursor as int, st.cursor + n)),
    }
}

/// The state after the run of characters of class `k` that starts at `st`.
pub open spec fn advance_while(text: Seq<char>, st: ReaderState, k: CharClass) -> ReaderState {
    skip_n(text, st, span_len(text, st.cursor as int, k))
}

/// The text read between two states.
pub open spec fn read_between(text: Seq<char>, a: ReaderState, b: ReaderState) -> Seq<char> {
    text.subrange(a.cursor as int, b.cursor as int)
}

pub proof fn lemma_pos_after_push(p: Pos, s: Seq<char>, c: char)
    ensures
        pos_after(p, s.push(c)) == next_pos(pos_after(p, s), c),
{
    assert(s.push(c).drop_last() =~= s);
}

pub proof fn lemma_pos_after_concat(p: Pos, a: Seq<char>, b: Seq<char>)
    ensures
        pos_after(p, a + b) == pos_after(pos_after(p, a), b),
    decreases b.len(),
{
    if b.len() == 0 {
        assert(a + b =~= a);
    } else {
        lemma_pos_after_concat(p, a, b.drop_last());
        assert((a + b).drop_last() =~= a + b.drop_last());
        assert((a + b).last() == b.last());
    }
}

/// Reading one more character keeps a state usable and advanced.
pub proof fn lemma_step(text: Seq<char>, a: ReaderState, b: ReaderState)
    requires
        state_ok(text, b),
        advanced(text, a, b),
        b.cursor < text.len(),
    ensures
        state_ok(text, skip_n(text, b, 1)),
        advanced(text, a, skip_n(text, b, 1)),
        skip_n(text, b, 1).pos == next_pos(b.pos, text[b.cursor as int]),
{
    let c = text[b.cursor as int];
    let s1 = text.subrange(b.cursor as int, b.cursor + 1);
    assert(s1.drop_last() =~= Seq::<char>::empty());
    assert(s1.last() == c);
    assert(pos_after(b.pos, s1.drop_last()) == b.pos);
    assert(pos_after(b.pos, s1) == next_pos(b.pos, c));
    let ab = text.subrange(a.cursor as int, b.cursor as int);
    assert(text.subrange(a.cursor as int, b.cursor + 1) =~= ab.push(c));
    lemma_pos_after_push(a.pos, ab, c);
}

pub proof fn lemma_advanced_refl(text: Seq<char>, a: ReaderState)
    requires
        a.cursor <= text.len(),
    ensures
        advanced(text, a, a),
{
    assert(text.subrange(a.cursor as int, a.cursor as int) =~= Seq::<char>::empty());
}

pub proof fn lemma_advanced_trans(text: Seq<char>, a: ReaderState, b: ReaderState, c: ReaderState)
    requires
        advanced(text, a, b),
        advanced(text, b, c),
    ensures
        advanced(text, a, c),
{
    let ab = text.subrange(a.cursor as int, b.cursor as int);
    let bc = text.subrange(b.cursor as int, c.cursor as int);
    assert(text.subrange(a.cursor as int, c.cursor as int) =~= ab + bc);
    lemma_pos_after_concat(a.pos, ab, bc);
}

/// A character source that tracks the position of its cursor.
pub struct Reader {
    pub buffer: Vec<char>,
    pub state: ReaderState,
}

impl Reader {
    /// The characters this reader reads.
    pub open spec fn text(&self) -> Seq<char> {
        self.buffer@
    }

    pub open spec fn wf(&self) -> bool {
        state_ok(self.text(), self.state)
    }

    /// Creates a reader on `s`, at index 0 and position 1:1.
    pub fn new(s: &str) -> (r: Reader)
        requires
            s@.len() < usize::MAX,
        ensures
            r.text() == s@,
            r.state == (ReaderState { cursor: 0, pos: Pos { line: 1, column: 1 } }),
            r.wf(),
    {
        let buffer = chars_of(s);
        Reader { buffer, state: ReaderState { cursor: 0, pos: Pos { line: 1, column: 1 } } }
    }

    /// The current state.
    pub fn cursor(&self) -> (st: ReaderState)
        ensures
            st == self.state,
    {
        self.state
    }

    /// Moves the reader to `st`.
    pub fn seek(&mut self, st: ReaderState)
        ensures
            final(self).state == st,
            final(self).text() == old(self).text(),
    {
        self.state = st;
    }

    pub fn is_eof(&self) -> (b: bool)
        ensures
            b == (self.state.cursor >= self.text().len()),
    {
        self.state.cursor >= self.buffer.len()
    }

    /// The next character, without reading it.
    pub fn peek(&self) -> (c: Option<char>)
        ensures
            c == (if self.state.cursor < self.text().len() {
                Some(self.text()[self.state.cursor as int])
            } else {
                None
            }),
    {
        if self.state.cursor < self.buffer.len() {
            Some(self.buffer[self.state.cursor])
        } else {
            None
        }
    }

    /// The character after the next one, without reading either.
    pub fn peek_second(&self) -> (c: Option<char>)
        ensures
            c == (if self.state.cursor + 1 < self.text().len() {
                Some(self.text()[self.state.cursor + 1])
            } else {
                None
            }),
    {
        if self.state.cursor < self.buffer.len() && self.state.cursor + 1 < self.buffer.len() {
            Some(self.buffer[self.state.cursor + 1])
        } else {
            None
        }
    }

    /// Reads the next character, advancing the cursor and the position.
    pub fn read(&mut self) -> (c: Option<char>)
        requires
            old(self).wf(),
        ensures
            final(self).wf(),
            final(self).text() == old(self).text(),
            advanced(old(self).text(), old(self).state, final(self).state),
            old(self).state.cursor < old(self).text().len() ==> {
                &&& c == Some(old(self).text()[old(self).state.cursor as int])
                &&& final(self).state == skip_n(old(self).text(), old(self).state, 1)
            },
            old(self).state.cursor >= old(self).text().len() ==> c is None && final(self).state
                == old(self).state,
    {
        proof {
            lemma_advanced_refl(self.text(), self.state);
        }
        if self.state.cursor >= self.buffer.len() {
            return None;
        }
        let c = self.buffer[self.state.cursor];
        proof {
            lemma_step(self.text(), self.state, self.state);
        }
        self.state.cursor = self.state.cursor + 1;
        if !(0x0300u32 < (c as u32) && (c as u32) < 0x036Fu32) {
            self.state.pos.column = self.state.pos.column + 1;
        }
        if c == '\n' {
            self.state.pos.column = 1;
            self.state.pos.line = self.state.pos.line + 1;
        }
        Some(c)
    }

    /// A copy of the characters between two indices.
    pub fn chars_between(&self, from: usize, to: usize) -> (v: Vec<char>)
        requires
            from <= to <= self.text().len(),
        ensures
            v@ == self.text().subrange(from as int, to as int),
    {
        let mut v: Vec<char> = Vec::new();
        let mut i = from;
        while i < to
            invariant
                from <= i <= to <= self.buffer@.len(),
                v@ == self.buffer@.subrange(from as int, i as int),
            decreases to - i,
        {
            v.push(self.buffer[i]);
            proof {
                assert(self.buffer@.subrange(from as int, i + 1) =~= self.buffer@.subrange(from as int, i as int).push(
                    self.buffer@[i as int],
                ));
            }
            i = i + 1;
        }
        v
    }

    /// Reads the run of characters of class `k` at the cursor.
    pub fn read_while(&mut self, k: CharClass) -> (v: Vec<char>)
        requires
            old(self).wf(),
        ensures
            final(self).wf(),
            final(self).text() == old(self).text(),
            advanced(old(self).text(), old(self).state, final(self).state),
            final(self).state == advance_while(old(self).text(), old(self).state, k),
            v@ == read_between(old(self).text(), old(self).state, final(self).state),
    {
        let ghost text = self.text();
        let ghost start = self.state;
        let mut v: Vec<char> = Vec::new();
        proof {
            lemma_advanced_refl(text, start);
            assert(read_between(text, start, start) =~= Seq::<char>::empty());
        }
        while self.state.cursor < self.buffer.len() && class_contains(k, self.buffer[self.state.cursor])
            invariant
                self.wf(),
                self.text() == text,
                advanced(text, start, self.state),
                v@ == read_between(text, start, self.state),
                span_len(text, start.cursor as int, k) == (self.state.cursor - start.cursor)
                    + span_len(text, self.state.cursor as int, k),
            decreases text.len() - self.state.cursor,
        {
            let ghost before = self.state;
            let c = self.read();
            proof {
                lemma_advanced_trans(text, start, before, self.state);
            }
            match c {
                Some(c) => {
                    v.push(c);
                    assert(read_between(text, start, self.state) =~= read_between(text, start, before).push(c));
                },
                None => {},
            }
        }
        v
    }
}

/// Collects characters into a `String` (`Iterator::collect`); the string
/// holds exactly those characters, in order.
#[verifier::external_body]
pub fn string_of(v: &[char]) -> (s: String)
    ensures
        s@ == v@,
{
    v.iter().collect()
}

/// The characters of `s`, in order.
pub fn chars_of(s: &str) -> (v: Vec<char>)
    ensures
        v@ == s@,
{
    broadcast use vstd::string::group_string_axioms;
    let mut v: Vec<char> = Vec::new();
    for c in it: s.chars()
        invariant
            v@ == it.seq().take(it.index() as int),
            it.seq() == s@,
    {
        v.push(c);
    }
    v
}

} // verus!
