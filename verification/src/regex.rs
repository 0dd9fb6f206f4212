use vstd::prelude::*;
use crate::ast::Regex;
use crate::error::{Error, ErrorV, ParseError, ParseErrorV, ParseResult, error_at, result_view};
use crate::primitives::{spec_literal, starts_with_at, try_literal};
use crate::reader::{Reader, ReaderState, advanced, chars_of, lemma_advanced_refl, lemma_advanced_trans, skip_n, state_ok, string_of};

verus! {

/// Why `regex::Regex::new` refused a pattern.
pub enum RegexBuildError {
    Syntax(String),
    CompiledTooBig,
    Other,
}

pub enum RegexBuildErrorV {
    Syntax(Seq<char>),
    CompiledTooBig,
    Other,
}

impl View for RegexBuildError {
    type V = RegexBuildErrorV;

    open spec fn view(&self) -> RegexBuildErrorV {
        match self {
            RegexBuildError::Syntax(s) => RegexBuildErrorV::Syntax(s@),
            RegexBuildError::CompiledTooBig => RegexBuildErrorV::CompiledTooBig,
            RegexBuildError::Other => RegexBuildErrorV::Other,
        }
    }
}

/// What `regex::Regex::new` answers for a pattern: `None` when it compiles,
/// else why it does not.
pub uninterp spec fn regex_build_outcome(pattern: Seq<char>) -> Option<RegexBuildErrorV>;

/// Calls `regex::Regex::new` on `pattern` and keeps only whether it
/// compiled and, if not, which kind of error it gave (with the syntax error's
/// text). The contract claims that this answer is the named outcome of the
/// pattern; what the regex grammar accepts is not restated.
#[verifier::external_body]
fn build_regex(pattern: &str) -> (r: Option<RegexBuildError>)
    ensures
        match r {
            None => regex_build_outcome(pattern@) is None,
            Some(e) => regex_build_outcome(pattern@) == Some(e@),
        },
{
    match regex::Regex::new(pattern) {
        Ok(_) => None,
        Err(regex::Error::Syntax(s)) => Some(RegexBuildError::Syntax(s)),
        Err(regex::Error::CompiledTooBig(_)) => Some(RegexBuildError::CompiledTooBig),
        Err(_) => Some(RegexBuildError::Other),
    }
}

/// The text after the last line feed of `s` (all of `s` when it has none).
pub open spec fn last_line(s: Seq<char>) -> Seq<char>
    decreases s.len(),
{
    if s.len() == 0 {
        s
    } else if s.last() == '\n' {
        Seq::empty()
    } else {
        last_line(s.drop_last()).push(s.last())
    }
}

/// `s` without a leading `error: `.
pub open spec fn strip_error_prefix(s: Seq<char>) -> Seq<char> {
    if starts_with_at(s, 0, "error: "@) {
        s.skip("error: "@.len() as int)
    } else {
        s
    }
}

/// The one-line message reported for a refused pattern: the last line of a
/// syntax error, without its `error: ` prefix.
pub open spec fn regex_message(e: RegexBuildErrorV) -> Seq<char> {
    match e {
        RegexBuildErrorV::Syntax(s) => strip_error_prefix(last_line(s)),
        RegexBuildErrorV::CompiledTooBig => "Size limit exceeded"@,
        RegexBuildErrorV::Other => "unknown"@,
    }
}

fn copy_range(v: &Vec<char>, from: usize, to: usize) -> (r: Vec<char>)
    requires
        from <= to <= v.len(),
    ensures
        r@ == v@.subrange(from as int, to as int),
{
    let mut r: Vec<char> = Vec::new();
    let mut i = from;
    while i < to
        invariant
            from <= i <= to <= v.len(),
            r@ == v@.subrange(from as int, i as int),
        decreases to - i,
    {
        r.push(v[i]);
        proof {
            assert(v@.subrange(from as int, i + 1) =~= v@.subrange(from as int, i as int).push(v@[i as int]));
        }
        i = i + 1;
    }
    r
}

fn has_prefix_at(v: &Vec<char>, p: &Vec<char>) -> (b: bool)
    ensures
        b == starts_with_at(v@, 0, p@),
{
    if p.len() > v.len() {
        return false;
    }
    let mut i: usize = 0;
    while i < p.len()
        invariant
            p.len() <= v.len(),
            i <= p.len(),
            forall|j: int| 0 <= j < i ==> v@[j] == p@[j],
        decreases p.len() - i,
    {
        if v[i] != p[i] {
            proof {
                assert(v@.subrange(0, p@.len() as int)[i as int] == v@[i as int]);
            }
            return false;
        }
        i = i + 1;
    }
    proof {
        assert(v@.subrange(0, p@.len() as int) =~= p@);
    }
    true
}

proof fn lemma_last_line_split(s: Seq<char>, i: int)
    requires
        0 <= i <= s.len(),
        forall|j: int| i <= j < s.len() ==> s[j] != '\n',
    ensures
        last_line(s) == last_line(s.take(i)) + s.subrange(i, s.len() as int),
    decreases s.len() - i,
{
    if i < s.len() {
        lemma_last_line_split(s, i + 1);
        assert(s.take(i + 1).drop_last() =~= s.take(i));
        assert(s.take(i + 1).last() == s[i]);
        assert(last_line(s.take(i + 1)) == last_line(s.take(i)).push(s[i]));
        assert(last_line(s.take(i)).push(s[i]) + s.subrange(i + 1, s.len() as int) =~= last_line(s.take(i))
            + s.subrange(i, s.len() as int));
    } else {
        assert(s.take(i) =~= s);
        assert(s.subrange(i, s.len() as int) =~= Seq::<char>::empty());
        assert(last_line(s) + Seq::<char>::empty() =~= last_line(s));
    }
}

/// The message for a refused pattern.
pub fn regex_error_message(e: &RegexBuildError) -> (m: String)
    ensures
        m@ == regex_message(e@),
{
    match e {
        RegexBuildError::Syntax(s) => {
            let v = chars_of(s.as_str());
            let mut i = v.len();
            while i > 0 && v[i - 1] != '\n'
                invariant
                    i <= v.len(),
                    forall|j: int| i <= j < v@.len() ==> v@[j] != '\n',
                decreases i,
            {
                i = i - 1;
            }
            proof {
                lemma_last_line_split(v@, i as int);
                if i > 0 {
                    assert(v@.take(i as int).last() == '\n');
                }
                assert(last_line(v@.take(i as int)) =~= Seq::<char>::empty());
                assert(last_line(v@) =~= v@.subrange(i as int, v@.len() as int));
            }
            let line = copy_range(&v, i, v.len());
            let prefix = chars_of("error: ");
            if has_prefix_at(&line, &prefix) {
                let rest = copy_range(&line, prefix.len(), line.len());
                string_of(rest.as_slice())
            } else {
                string_of(line.as_slice())
            }
        },
        RegexBuildError::CompiledTooBig => String::from_str("Size limit exceeded"),
        RegexBuildError::Other => String::from_str("unknown"),
    }
}

/// The pattern of a regex literal read from `i`, just after its opening
/// slash: the characters up to the next `/` that no backslash escapes, with
/// `\/` read as `/`; and the index just after the closing slash. `None` when
/// the text ends first.
pub open spec fn regex_body(text: Seq<char>, i: int) -> Option<(Seq<char>, int)>
    decreases text.len() - i,
{
    if i < 0 || i >= text.len() {
        None
    } else if text[i] == '/' {
        Some((Seq::empty(), i + 1))
    } else if text[i] == '\\' && i + 1 < text.len() && text[i + 1] == '/' {
        prepend_char('/', regex_body(text, i + 2))
    } else {
        prepend_char(text[i], regex_body(text, i + 1))
    }
}

pub open spec fn prepend_char(c: char, o: Option<(Seq<char>, int)>) -> Option<(Seq<char>, int)> {
    match o {
        Some((p, e)) => Some((seq![c] + p, e)),
        None => None,
    }
}

pub open spec fn prepend_all(acc: Seq<char>, o: Option<(Seq<char>, int)>) -> Option<(Seq<char>, int)> {
    match o {
        Some((p, e)) => Some((acc + p, e)),
        None => None,
    }
}

proof fn lemma_regex_body_end(text: Seq<char>, i: int)
    ensures
        regex_body(text, i) matches Some((p, e)) ==> i < e <= text.len(),
    decreases text.len() - i,
{
    if 0 <= i < text.len() {
        lemma_regex_body_end(text, i + 1);
        if i + 1 < text.len() {
            lemma_regex_body_end(text, i + 2);
        }
    }
}

/// A regex literal `/.../`: without an opening slash, a recoverable
/// failure; when the text ends first, a failure at its end; when the pattern
/// does not compile, a failure at the opening slash with the compiler's
/// message.
pub open spec fn spec_regex(text: Seq<char>, st: ReaderState) -> (Result<Seq<char>, ErrorV>, ReaderState) {
    let (r1, st1) = spec_literal(text, st, "/"@, true);
    match r1 {
        Err(e) => (Err(e), st1),
        Ok(_) => match regex_body(text, st1.cursor as int) {
            None => {
                let st2 = skip_n(text, st1, (text.len() - st1.cursor) as nat);
                (Err(error_at(st2.pos, false, ParseErrorV::RegexExpr { message: "unexpected end of file"@ })), st2)
            },
            Some((p, e)) => {
                let st2 = skip_n(text, st1, (e - st1.cursor) as nat);
                match regex_build_outcome(p) {
                    None => (Ok(p), st2),
                    Some(err) => (Err(error_at(st.pos, false, ParseErrorV::RegexExpr { message: regex_message(err) })), st2),
                }
            },
        },
    }
}

pub fn regex(reader: &mut Reader) -> (res: ParseResult<Regex>)
    requires
        old(reader).wf(),
    ensures
        final(reader).wf(),
        final(reader).text() == old(reader).text(),
        advanced(old(reader).text(), old(reader).state, final(reader).state),
        (result_view(res), final(reader).state) == spec_regex(old(reader).text(), old(reader).state),
{
    let ghost text = reader.text();
    let start = reader.state;
    try_literal("/", reader)?;
    let ghost st1 = reader.state;
    let mut s: Vec<char> = Vec::new();
    proof {
        lemma_advanced_refl(text, st1);
        assert(prepend_all(s@, regex_body(text, st1.cursor as int)) == regex_body(text, st1.cursor as int)) by {
            match regex_body(text, st1.cursor as int) {
                Some((p, e)) => { assert(s@ + p =~= p); },
                None => {},
            }
        }
    }
    loop
        invariant_except_break
            regex_body(text, st1.cursor as int) == prepend_all(s@, regex_body(text, reader.state.cursor as int)),
        invariant
            reader.wf(),
            reader.text() == text,
            text == old(reader).text(),
            start == old(reader).state,
            advanced(text, start, st1),
            advanced(text, st1, reader.state),
            spec_literal(text, start, "/"@, true) == (Ok::<(), ErrorV>(()), st1),
        ensures
            reader.wf(),
            reader.text() == text,
            advanced(text, st1, reader.state),
            regex_body(text, st1.cursor as int) == Some((s@, reader.state.cursor as int)),
        decreases text.len() - reader.state.cursor,
    {
        let ghost before = reader.state;
        let c = reader.read();
        proof {
            lemma_advanced_trans(text, st1, before, reader.state);
        }
        match c {
            None => {
                proof {
                    lemma_advanced_trans(text, start, st1, reader.state);
                }
                return Err(Error::new(reader.state.pos, false, ParseError::RegexExpr { message: String::from_str("unexpected end of file") }));
            },
            Some(c) => {
                if c == '/' {
                    proof {
                        assert(s@ + Seq::<char>::empty() =~= s@);
                    }
                    break;
                } else if c == '\\' {
                    let next = reader.peek();
                    let is_slash = match next {
                        Some(n) => n == '/',
                        None => false,
                    };
                    if is_slash {
                        let ghost mid = reader.state;
                        reader.read();
                        proof {
                            lemma_advanced_trans(text, st1, mid, reader.state);
                            match regex_body(text, reader.state.cursor as int) {
                                Some((p, e)) => { assert(s@ + (seq!['/'] + p) =~= s@.push('/') + p); },
                                None => {},
                            }
                        }
                        s.push('/');
                    } else {
                        proof {
                            match regex_body(text, reader.state.cursor as int) {
                                Some((p, e)) => { assert(s@ + (seq!['\\'] + p) =~= s@.push('\\') + p); },
                                None => {},
                            }
                        }
                        s.push('\\');
                    }
                } else {
                    proof {
                        match regex_body(text, reader.state.cursor as int) {
                            Some((p, e)) => { assert(s@ + (seq![c] + p) =~= s@.push(c) + p); },
                            None => {},
                        }
                    }
                    s.push(c);
                }
            },
        }
    }
    proof {
        lemma_advanced_trans(text, start, st1, reader.state);
        lemma_regex_body_end(text, st1.cursor as int);
    }
    let pattern = string_of(s.as_slice());
    match build_regex(pattern.as_str()) {
        None => Ok(Regex { source: pattern }),
        Some(e) => Err(Error::new(start.pos, false, ParseError::RegexExpr { message: regex_error_message(&e) })),
    }
}


/// Between the opening slash and the first `/` that no backslash escapes,
/// the pattern is the text as written: backslashes and the characters after
/// them are kept.
pub proof fn law_regex_pattern_kept_verbatim(text: Seq<char>, i: int, j: int)
    requires
        0 <= i <= j < text.len(),
        forall|k: int| i <= k < j ==> text[k] != '/',
        text[j] == '/',
        j == i || text[j - 1] != '\\',
    ensures
        regex_body(text, i) == Some((text.subrange(i, j), j + 1)),
    decreases j - i,
{
    if i < j {
        assert(text[i] != '/');
        if text[i] == '\\' && text[i + 1] == '/' {
            assert(i + 1 == j);
        }
        law_regex_pattern_kept_verbatim(text, i + 1, j);
        assert(seq![text[i]] + text.subrange(i + 1, j) =~= text.subrange(i, j));
    }
}

/// A backslash followed by a slash stands for a slash in the pattern, and
/// the pattern goes on after them; what comes before is kept as written.
pub proof fn law_regex_escaped_slash(text: Seq<char>, i: int, j: int)
    requires
        0 <= i <= j,
        j + 1 < text.len(),
        forall|k: int| i <= k < j ==> text[k] != '/',
        text[j] == '\\',
        text[j + 1] == '/',
    ensures
        regex_body(text, i) == prepend_all(text.subrange(i, j).push('/'), regex_body(text, j + 2)),
    decreases j - i,
{
    if i == j {
        match regex_body(text, j + 2) {
            Some((p, e)) => {
                assert(seq!['/'] + p =~= text.subrange(i, j).push('/') + p);
            },
            None => {},
        }
    } else {
        assert(text[i] != '/');
        assert(!(text[i] == '\\' && text[i + 1] == '/')) by {
            if i + 1 < j {
                assert(text[i + 1] != '/');
            }
        }
        law_regex_escaped_slash(text, i + 1, j);
        match regex_body(text, j + 2) {
            Some((p, e)) => {
                assert(seq![text[i]] + (text.subrange(i + 1, j).push('/') + p) =~= text.subrange(i, j).push('/') + p);
            },
            None => {},
        }
    }
}

/// A regex literal with no escaped slash and a pattern that compiles gives
/// that pattern, exactly as written between its slashes, and is read up to
/// its closing slash.
pub proof fn law_regex_literal_pattern(text: Seq<char>, st: ReaderState, j: int)
    requires
        state_ok(text, st),
        st.cursor < j < text.len(),
        text[st.cursor as int] == '/',
        forall|k: int| st.cursor < k < j ==> text[k] != '/',
        text[j] == '/',
        j == st.cursor + 1 || text[j - 1] != '\\',
        regex_build_outcome(text.subrange(st.cursor + 1, j)) is None,
    ensures
        spec_regex(text, st).0 == Ok::<Seq<char>, ErrorV>(text.subrange(st.cursor + 1, j)),
        spec_regex(text, st).1.cursor == j + 1,
{
    reveal_strlit("/");
    assert(text.subrange(st.cursor as int, st.cursor + 1) =~= "/"@);
    law_regex_pattern_kept_verbatim(text, st.cursor + 1, j);
}


/// With no `/` left from `i` on, the regex literal never closes.
pub proof fn law_regex_unclosed(text: Seq<char>, i: int)
    requires
        0 <= i,
        forall|k: int| i <= k < text.len() ==> text[k] != '/',
    ensures
        regex_body(text, i) is None,
    decreases text.len() - i,
{
    if i < text.len() {
        law_regex_unclosed(text, i + 1);
        if i + 1 < text.len() {
            law_regex_unclosed(text, i + 2);
        }
    }
}

} // verus!
