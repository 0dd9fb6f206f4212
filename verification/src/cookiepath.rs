use vstd::prelude::*;
use crate::ast::{CookieAttribute, CookieAttributeKind, CookieAttributeName, CookieAttributeNameV, CookieAttributeV, CookiePath, CookiePathV};
use crate::chars::CharClass;
use crate::error::{Error, ErrorV, ParseError, ParseErrorV, ParseResult, error_at, result_view};
use crate::primitives::{literal, spec_blanks, spec_literal, try_literal, zero_or_more_spaces};
use crate::reader::{Reader, ReaderState, advance_while, advanced, chars_of, lemma_advanced_trans, read_between, state_ok, string_of};
use crate::template::{spec_unquoted_template, unquoted_template};

verus! {

pub open spec fn is_ascii_upper(c: char) -> bool {
    'A' <= c && c <= 'Z'
}

/// Two characters equal up to ASCII case.
pub open spec fn char_eq_ignore_ascii_case(a: char, b: char) -> bool {
    ||| a == b
    ||| is_ascii_upper(a) && (a as u32) + 32 == (b as u32)
    ||| is_ascii_upper(b) && (b as u32) + 32 == (a as u32)
}

/// Two texts equal up to ASCII case.
pub open spec fn eq_ignore_ascii_case(a: Seq<char>, b: Seq<char>) -> bool {
    a.len() == b.len() && forall|i: int| 0 <= i < a.len() ==> char_eq_ignore_ascii_case(#[trigger] a[i], b[i])
}

fn same_ignoring_ascii_case(a: &Vec<char>, b: &str) -> (r: bool)
    ensures
        r == eq_ignore_ascii_case(a@, b@),
{
    let bv = chars_of(b);
    if a.len() != bv.len() {
        return false;
    }
    let mut i: usize = 0;
    while i < a.len()
        invariant
            a.len() == bv.len(),
            bv@ == b@,
            i <= a.len(),
            forall|j: int| 0 <= j < i ==> char_eq_ignore_ascii_case(#[trigger] a@[j], bv@[j]),
        decreases a.len() - i,
    {
        let x = a[i];
        let y = bv[i];
        let same = x == y || ('A' <= x && x <= 'Z' && (x as u32) + 32 == (y as u32)) || ('A' <= y && y <= 'Z'
            && (y as u32) + 32 == (x as u32));
        if !same {
            return false;
        }
        i = i + 1;
    }
    true
}

/// The attribute that a name asks for, with ASCII case ignored.
pub open spec fn attribute_kind(s: Seq<char>) -> Option<CookieAttributeKind> {
    if eq_ignore_ascii_case(s, "value"@) {
        Some(CookieAttributeKind::Value)
    } else if eq_ignore_ascii_case(s, "expires"@) {
        Some(CookieAttributeKind::Expires)
    } else if eq_ignore_ascii_case(s, "max-age"@) {
        Some(CookieAttributeKind::MaxAge)
    } else if eq_ignore_ascii_case(s, "domain"@) {
        Some(CookieAttributeKind::Domain)
    } else if eq_ignore_ascii_case(s, "path"@) {
        Some(CookieAttributeKind::Path)
    } else if eq_ignore_ascii_case(s, "secure"@) {
        Some(CookieAttributeKind::Secure)
    } else if eq_ignore_ascii_case(s, "httponly"@) {
        Some(CookieAttributeKind::HttpOnly)
    } else if eq_ignore_ascii_case(s, "samesite"@) {
        Some(CookieAttributeKind::SameSite)
    } else {
        None
    }
}

fn attribute_name(s: &Vec<char>) -> (r: Option<CookieAttributeName>)
    ensures
        match r {
            Some(n) => attribute_kind(s@) == Some(n@.kind) && n@.text == s@,
            None => attribute_kind(s@) is None,
        },
{
    let text = string_of(s.as_slice());
    if same_ignoring_ascii_case(s, "value") {
        Some(CookieAttributeName::Value(text))
    } else if same_ignoring_ascii_case(s, "expires") {
        Some(CookieAttributeName::Expires(text))
    } else if same_ignoring_ascii_case(s, "max-age") {
        Some(CookieAttributeName::MaxAge(text))
    } else if same_ignoring_ascii_case(s, "domain") {
        Some(CookieAttributeName::Domain(text))
    } else if same_ignoring_ascii_case(s, "path") {
        Some(CookieAttributeName::Path(text))
    } else if same_ignoring_ascii_case(s, "secure") {
        Some(CookieAttributeName::Secure(text))
    } else if same_ignoring_ascii_case(s, "httponly") {
        Some(CookieAttributeName::HttpOnly(text))
    } else if same_ignoring_ascii_case(s, "samesite") {
        Some(CookieAttributeName::SameSite(text))
    } else {
        None
    }
}

/// `[ name ]`: without `[`, a recoverable failure; an unknown name fails at
/// its start.
pub open spec fn spec_cookie_attribute(text: Seq<char>, st: ReaderState) -> (Result<CookieAttributeV, ErrorV>, ReaderState) {
    let (r1, st1) = spec_literal(text, st, "["@, true);
    match r1 {
        Err(e) => (Err(e), st1),
        Ok(_) => {
            let (space0, st2) = spec_blanks(text, st1);
            let st3 = advance_while(text, st2, CharClass::AttributeChar);
            let name = read_between(text, st2, st3);
            match attribute_kind(name) {
                None => (Err(error_at(st2.pos, false, ParseErrorV::InvalidCookieAttribute)), st3),
                Some(k) => {
                    let (space1, st4) = spec_blanks(text, st3);
                    let (r5, st5) = spec_literal(text, st4, "]"@, false);
                    match r5 {
                        Err(e) => (Err(e), st5),
                        Ok(_) => (Ok(CookieAttributeV { space0, name: CookieAttributeNameV { kind: k, text: name }, space1 }), st5),
                    }
                },
            }
        },
    }
}

fn cookiepath_attribute(reader: &mut Reader) -> (res: ParseResult<CookieAttribute>)
    requires
        old(reader).wf(),
    ensures
        final(reader).wf(),
        final(reader).text() == old(reader).text(),
        advanced(old(reader).text(), old(reader).state, final(reader).state),
        (result_view(res), final(reader).state) == spec_cookie_attribute(old(reader).text(), old(reader).state),
{
    let ghost text = reader.text();
    let ghost st0 = reader.state;
    try_literal("[", reader)?;
    let ghost st1 = reader.state;
    let space0 = zero_or_more_spaces(reader);
    let st2 = reader.state;
    let s = reader.read_while(CharClass::AttributeChar);
    let ghost st3 = reader.state;
    proof {
        lemma_advanced_trans(text, st0, st1, st2);
        lemma_advanced_trans(text, st0, st2, st3);
    }
    let name = match attribute_name(&s) {
        None => {
            return Err(Error::new(st2.pos, false, ParseError::InvalidCookieAttribute));
        },
        Some(n) => n,
    };
    let space1 = zero_or_more_spaces(reader);
    let ghost st4 = reader.state;
    proof {
        lemma_advanced_trans(text, st0, st3, st4);
    }
    let r = literal("]", reader);
    proof {
        lemma_advanced_trans(text, st0, st4, reader.state);
    }
    match r {
        Err(e) => Err(e),
        Ok(_) => Ok(CookieAttribute { space0, name, space1 }),
    }
}

/// A cookie path `name[attribute]`: the name is the text before `[` (or the
/// end), read as a template that starts at the current position; the
/// attribute is optional.
pub open spec fn spec_cookiepath(text: Seq<char>, st: ReaderState) -> (Result<CookiePathV, ErrorV>, ReaderState) {
    let st1 = advance_while(text, st, CharClass::NotChar('['));
    let name_text = read_between(text, st, st1);
    let (rn, _) = spec_unquoted_template(name_text, ReaderState { cursor: 0, pos: st.pos });
    match rn {
        Err(e) => (Err(e), st1),
        Ok(name) => {
            let (ra, st2) = spec_cookie_attribute(text, st1);
            match ra {
                Ok(a) => (Ok(CookiePathV { name, attribute: Some(a) }), st2),
                Err(e) => if e.recoverable {
                    (Ok(CookiePathV { name, attribute: None }), st1)
                } else {
                    (Err(e), st2)
                },
            }
        },
    }
}

pub fn cookiepath(reader: &mut Reader) -> (res: ParseResult<CookiePath>)
    requires
        old(reader).wf(),
    ensures
        final(reader).wf(),
        final(reader).text() == old(reader).text(),
        advanced(old(reader).text(), old(reader).state, final(reader).state),
        (result_view(res), final(reader).state) == spec_cookiepath(old(reader).text(), old(reader).state),
{
    let ghost text = reader.text();
    let start = reader.state;
    let s = reader.read_while(CharClass::NotChar('['));
    let st1 = reader.state;
    let mut template_reader = Reader { buffer: s, state: ReaderState { cursor: 0, pos: start.pos } };
    proof {
        assert(state_ok(template_reader.text(), template_reader.state));
    }
    let name = unquoted_template(&mut template_reader)?;
    let r = cookiepath_attribute(reader);
    proof {
        lemma_advanced_trans(text, start, st1, reader.state);
    }
    match r {
        Ok(a) => Ok(CookiePath { name, attribute: Some(a) }),
        Err(e) => {
            if e.recoverable {
                reader.seek(st1);
                Ok(CookiePath { name, attribute: None })
            } else {
                Err(e)
            }
        },
    }
}


/// The name of an attribute, in lower case.
pub open spec fn attribute_text(k: CookieAttributeKind) -> Seq<char> {
    match k {
        CookieAttributeKind::Value => "value"@,
        CookieAttributeKind::Expires => "expires"@,
        CookieAttributeKind::MaxAge => "max-age"@,
        CookieAttributeKind::Domain => "domain"@,
        CookieAttributeKind::Path => "path"@,
        CookieAttributeKind::Secure => "secure"@,
        CookieAttributeKind::HttpOnly => "httponly"@,
        CookieAttributeKind::SameSite => "samesite"@,
    }
}

/// A text equal to `a` up to ASCII case is not equal to `b` up to ASCII
/// case when `a` and `b` hold two different characters, neither of them an
/// upper-case letter, at the same place.
proof fn lemma_case_insensitive_differ(s: Seq<char>, a: Seq<char>, b: Seq<char>, j: int)
    requires
        eq_ignore_ascii_case(s, a),
        0 <= j < a.len(),
        j < b.len(),
        (a[j] as u32) != (b[j] as u32),
        !is_ascii_upper(a[j]),
        !is_ascii_upper(b[j]),
    ensures
        !eq_ignore_ascii_case(s, b),
{
    assert(char_eq_ignore_ascii_case(s[j], a[j]));
    if eq_ignore_ascii_case(s, b) {
        assert(char_eq_ignore_ascii_case(s[j], b[j]));
    }
}

/// Each attribute is asked for by its name, in any ASCII case, and by no
/// other text: a name reads as the attribute `k` exactly when it equals
/// the name of `k` up to ASCII case. So `Expires` is the expiry date and
/// `MAX-AGE` the maximum age, and two different attributes never share a
/// name.
pub proof fn law_attribute_kind_by_name(s: Seq<char>, k: CookieAttributeKind)
    ensures
        (attribute_kind(s) == Some(k)) == eq_ignore_ascii_case(s, attribute_text(k)),
{
    reveal_strlit("value");
    reveal_strlit("expires");
    reveal_strlit("max-age");
    reveal_strlit("domain");
    reveal_strlit("path");
    reveal_strlit("secure");
    reveal_strlit("httponly");
    reveal_strlit("samesite");
    if eq_ignore_ascii_case(s, "max-age"@) {
        lemma_case_insensitive_differ(s, "max-age"@, "expires"@, 0);
    }
    if eq_ignore_ascii_case(s, "secure"@) {
        lemma_case_insensitive_differ(s, "secure"@, "domain"@, 0);
    }
    if eq_ignore_ascii_case(s, "samesite"@) {
        lemma_case_insensitive_differ(s, "samesite"@, "httponly"@, 0);
    }
    if eq_ignore_ascii_case(s, "expires"@) {
        lemma_case_insensitive_differ(s, "expires"@, "max-age"@, 0);
    }
    if eq_ignore_ascii_case(s, "domain"@) {
        lemma_case_insensitive_differ(s, "domain"@, "secure"@, 0);
    }
    if eq_ignore_ascii_case(s, "httponly"@) {
        lemma_case_insensitive_differ(s, "httponly"@, "samesite"@, 0);
    }
}

/// A name that is none of the attribute names, whatever the ASCII case,
/// asks for no attribute.
pub proof fn law_unknown_attribute_name(s: Seq<char>)
    requires
        forall|k: CookieAttributeKind| !eq_ignore_ascii_case(s, #[trigger] attribute_text(k)),
    ensures
        attribute_kind(s) is None,
{
    assert(!eq_ignore_ascii_case(s, attribute_text(CookieAttributeKind::Value)));
    assert(!eq_ignore_ascii_case(s, attribute_text(CookieAttributeKind::Expires)));
    assert(!eq_ignore_ascii_case(s, attribute_text(CookieAttributeKind::MaxAge)));
    assert(!eq_ignore_ascii_case(s, attribute_text(CookieAttributeKind::Domain)));
    assert(!eq_ignore_ascii_case(s, attribute_text(CookieAttributeKind::Path)));
    assert(!eq_ignore_ascii_case(s, attribute_text(CookieAttributeKind::Secure)));
    assert(!eq_ignore_ascii_case(s, attribute_text(CookieAttributeKind::HttpOnly)));
    assert(!eq_ignore_ascii_case(s, attribute_text(CookieAttributeKind::SameSite)));
}

} // verus!
