use vstd::prelude::*;

verus! {

/// A JSON token: a structural byte (`{ } [ ] , :`), or a string, number or
/// literal as written.
pub enum JsonToken {
    Punct(u8),
    Scalar(Vec<u8>),
}

pub enum TokenV {
    Punct(u8),
    Scalar(Seq<u8>),
}

impl View for JsonToken {
    type V = TokenV;

    open spec fn view(&self) -> TokenV {
        match self {
            JsonToken::Punct(p) => TokenV::Punct(*p),
            JsonToken::Scalar(s) => TokenV::Scalar(s@),
        }
    }
}

pub open spec fn tokens_view(v: Seq<JsonToken>) -> Seq<TokenV> {
    v.map_values(|t: JsonToken| t@)
}

/// JSON whitespace: space, tab, line feed, carriage return.
pub open spec fn is_json_space(b: u8) -> bool {
    b == 0x20 || b == 0x09 || b == 0x0A || b == 0x0D
}

pub open spec fn is_open(b: u8) -> bool {
    b == 0x7B || b == 0x5B
}

pub open spec fn is_close(b: u8) -> bool {
    b == 0x7D || b == 0x5D
}

pub open spec fn is_punct(b: u8) -> bool {
    is_open(b) || is_close(b) || b == 0x2C || b == 0x3A
}

/// The bytes that numbers and the literals `true`, `false`, `null` are made
/// of: ASCII letters and digits, `+`, `-` and `.`.
pub open spec fn is_scalar_byte(b: u8) -> bool {
    (0x30 <= b <= 0x39) || (0x41 <= b <= 0x5A) || (0x61 <= b <= 0x7A) || b == 0x2B || b == 0x2D || b == 0x2E
}

/// The closing byte that matches an opening one.
pub open spec fn close_of(open: u8) -> u8 {
    if open == 0x7B {
        0x7D
    } else {
        0x5D
    }
}

/// The index just after the closing quote of a string whose content starts
/// at `i`; a backslash escapes the byte after it.
pub open spec fn string_end(b: Seq<u8>, i: int) -> Option<int>
    decreases b.len() - i,
{
    if i < 0 || i >= b.len() {
        None
    } else if b[i] == 0x22 {
        Some(i + 1)
    } else if b[i] == 0x5C {
        if i + 1 < b.len() {
            string_end(b, i + 2)
        } else {
            None
        }
    } else {
        string_end(b, i + 1)
    }
}

/// The length of the run of scalar bytes at `i`.
pub open spec fn scalar_len(b: Seq<u8>, i: int) -> nat
    decreases b.len() - i,
{
    if i < 0 || i >= b.len() || !is_scalar_byte(b[i]) {
        0
    } else {
        1 + scalar_len(b, i + 1)
    }
}

pub open spec fn prepend_token(t: TokenV, o: Option<Seq<TokenV>>) -> Option<Seq<TokenV>> {
    match o {
        Some(ts) => Some(seq![t] + ts),
        None => None,
    }
}

/// The tokens of `b` from `i`, whitespace between them dropped; `None` when
/// a byte starts no token or a string is not closed.
pub open spec fn tokenize(b: Seq<u8>, i: int) -> Option<Seq<TokenV>>
    decreases b.len() - i,
{
    if i < 0 || i >= b.len() {
        Some(Seq::empty())
    } else {
        let c = b[i];
        if is_json_space(c) {
            tokenize(b, i + 1)
        } else if is_punct(c) {
            prepend_token(TokenV::Punct(c), tokenize(b, i + 1))
        } else if c == 0x22 {
            match string_end(b, i + 1) {
                None => None,
                Some(e) => if i < e <= b.len() {
                    prepend_token(TokenV::Scalar(b.subrange(i, e)), tokenize(b, e))
                } else {
                    None
                },
            }
        } else if is_scalar_byte(c) {
            let e = i + scalar_len(b, i);
            if e <= b.len() {
                prepend_token(TokenV::Scalar(b.subrange(i, e)), tokenize(b, e))
            } else {
                None
            }
        } else {
            None
        }
    }
}

/// Brackets open and close in matching pairs from token `i`, given the
/// brackets still open.
pub open spec fn balanced(ts: Seq<TokenV>, i: int, open: Seq<u8>) -> bool
    decreases ts.len() - i,
{
    if i < 0 || i >= ts.len() {
        open.len() == 0
    } else {
        match ts[i] {
            TokenV::Punct(p) => if is_open(p) {
                balanced(ts, i + 1, open.push(p))
            } else if is_close(p) {
                open.len() > 0 && close_of(open.last()) == p && balanced(ts, i + 1, open.drop_last())
            } else {
                balanced(ts, i + 1, open)
            },
            TokenV::Scalar(_) => balanced(ts, i + 1, open),
        }
    }
}

/// No two strings, numbers or literals follow each other directly.
pub open spec fn scalars_apart(ts: Seq<TokenV>) -> bool {
    forall|i: int, j: int| 0 <= i && j == i + 1 && j < ts.len() ==> !(#[trigger] ts[i] is Scalar && #[trigger] ts[j] is Scalar)
}

/// Two spaces per level.
pub open spec fn indent(depth: nat) -> Seq<u8> {
    Seq::new(2 * depth, |k: int| 0x20u8)
}

/// Tokens from `i` laid out at nesting `depth`: a line per member or
/// element, indented two spaces per level, `": "` after keys, and empty
/// containers kept on one line.
pub open spec fn layout(ts: Seq<TokenV>, i: int, depth: nat) -> Seq<u8>
    decreases ts.len() - i,
{
    if i < 0 || i >= ts.len() {
        Seq::empty()
    } else {
        match ts[i] {
            TokenV::Punct(p) => if is_open(p) {
                if i + 1 < ts.len() && ts[i + 1] == TokenV::Punct(close_of(p)) {
                    seq![p, close_of(p)] + layout(ts, i + 2, depth)
                } else {
                    seq![p, 0x0Au8] + indent(depth + 1) + layout(ts, i + 1, depth + 1)
                }
            } else if is_close(p) {
                seq![0x0Au8] + indent((depth - 1) as nat) + seq![p] + layout(ts, i + 1, (depth - 1) as nat)
            } else if p == 0x2C {
                seq![0x2Cu8, 0x0Au8] + indent(depth) + layout(ts, i + 1, depth)
            } else {
                seq![0x3Au8, 0x20u8] + layout(ts, i + 1, depth)
            },
            TokenV::Scalar(t) => t + layout(ts, i + 1, depth),
        }
    }
}

/// A body prettified: when it reads as a sequence of JSON tokens with
/// matching brackets and no two scalars side by side, its tokens laid out
/// (see `layout`); otherwise the body as it is.
pub open spec fn pretty_json(b: Seq<u8>) -> Seq<u8> {
    match tokenize(b, 0) {
        Some(ts) => if balanced(ts, 0, Seq::empty()) && scalars_apart(ts) {
            layout(ts, 0, 0)
        } else {
            b
        },
        None => b,
    }
}

proof fn lemma_string_end_bound(b: Seq<u8>, i: int)
    ensures
        string_end(b, i) matches Some(e) ==> i < e <= b.len(),
    decreases b.len() - i,
{
    if 0 <= i < b.len() {
        lemma_string_end_bound(b, i + 1);
        if i + 1 < b.len() {
            lemma_string_end_bound(b, i + 2);
        }
    }
}

proof fn lemma_scalar_len_bound(b: Seq<u8>, i: int)
    requires
        0 <= i,
    ensures
        i + scalar_len(b, i) <= b.len() || scalar_len(b, i) == 0,
        scalar_len(b, i) > 0 ==> i + scalar_len(b, i) <= b.len(),
    decreases b.len() - i,
{
    if i < b.len() && is_scalar_byte(b[i]) {
        lemma_scalar_len_bound(b, i + 1);
    }
}

fn scalar_byte(c: u8) -> (r: bool)
    ensures
        r == is_scalar_byte(c),
{
    (0x30 <= c && c <= 0x39) || (0x41 <= c && c <= 0x5A) || (0x61 <= c && c <= 0x7A) || c == 0x2B || c == 0x2D
        || c == 0x2E
}

fn copy_bytes(b: &Vec<u8>, from: usize, to: usize) -> (r: Vec<u8>)
    requires
        from <= to <= b.len(),
    ensures
        r@ == b@.subrange(from as int, to as int),
{
    let mut r: Vec<u8> = Vec::new();
    let mut i = from;
    while i < to
        invariant
            from <= i <= to <= b.len(),
            r@ == b@.subrange(from as int, i as int),
        decreases to - i,
    {
        r.push(b[i]);
        proof {
            assert(b@.subrange(from as int, i + 1) =~= b@.subrange(from as int, i as int).push(b@[i as int]));
        }
        i = i + 1;
    }
    r
}

pub open spec fn prefix_tokens(acc: Seq<TokenV>, o: Option<Seq<TokenV>>) -> Option<Seq<TokenV>> {
    match o {
        Some(ts) => Some(acc + ts),
        None => None,
    }
}

/// The tokens of `b` (see `tokenize`).
pub fn tokens_of(b: &Vec<u8>) -> (r: Option<Vec<JsonToken>>)
    ensures
        match r {
            Some(ts) => tokenize(b@, 0) == Some(tokens_view(ts@)),
            None => tokenize(b@, 0) is None,
        },
{
    let mut ts: Vec<JsonToken> = Vec::new();
    let mut i: usize = 0;
    proof {
        match tokenize(b@, 0) {
            Some(x) => { assert(tokens_view(ts@) + x =~= x); },
            None => {},
        }
    }
    while i < b.len()
        invariant
            i <= b.len(),
            tokenize(b@, 0) == prefix_tokens(tokens_view(ts@), tokenize(b@, i as int)),
        decreases b.len() - i,
    {
        let c = b[i];
        let ghost before = ts@;
        if c == 0x20 || c == 0x09 || c == 0x0A || c == 0x0D {
            i = i + 1;
        } else if c == 0x7B || c == 0x5B || c == 0x7D || c == 0x5D || c == 0x2C || c == 0x3A {
            ts.push(JsonToken::Punct(c));
            proof {
                assert(tokens_view(ts@) =~= tokens_view(before).push(TokenV::Punct(c)));
                match tokenize(b@, i + 1) {
                    Some(x) => {
                        assert(tokens_view(before) + (seq![TokenV::Punct(c)] + x) =~= tokens_view(before).push(TokenV::Punct(c)) + x);
                    },
                    None => {},
                }
            }
            i = i + 1;
        } else if c == 0x22 {
            let mut j = i + 1;
            proof {
                lemma_string_end_bound(b@, (i + 1) as int);
            }
            while j < b.len() && b[j] != 0x22
                invariant
                    i < j,
                    i < b.len(),
                    j <= b.len() + 1,
                    b@[i as int] == 0x22,
                    tokenize(b@, 0) == prefix_tokens(tokens_view(ts@), tokenize(b@, i as int)),
                    string_end(b@, i + 1) == string_end(b@, j as int),
                decreases b.len() + 2 - j,
            {
                if b[j] == 0x5C {
                    if j + 1 >= b.len() {
                        return None;
                    }
                    j = j + 2;
                } else {
                    j = j + 1;
                }
            }
            if j >= b.len() {
                return None;
            }
            let e = j + 1;
            proof {
                lemma_string_end_bound(b@, (i + 1) as int);
            }
            let t = copy_bytes(b, i, e);
            ts.push(JsonToken::Scalar(t));
            proof {
                let tok = TokenV::Scalar(b@.subrange(i as int, e as int));
                assert(tokens_view(ts@) =~= tokens_view(before).push(tok));
                match tokenize(b@, e as int) {
                    Some(x) => {
                        assert(tokens_view(before) + (seq![tok] + x) =~= tokens_view(before).push(tok) + x);
                    },
                    None => {},
                }
            }
            i = e;
        } else if scalar_byte(c) {
            let mut j = i;
            proof {
                lemma_scalar_len_bound(b@, i as int);
            }
            while j < b.len() && scalar_byte(b[j])
                invariant
                    i <= j <= b.len(),
                    scalar_len(b@, i as int) == (j - i) + scalar_len(b@, j as int),
                decreases b.len() - j,
            {
                j = j + 1;
            }
            let t = copy_bytes(b, i, j);
            ts.push(JsonToken::Scalar(t));
            proof {
                let tok = TokenV::Scalar(b@.subrange(i as int, j as int));
                assert(tokens_view(ts@) =~= tokens_view(before).push(tok));
                match tokenize(b@, j as int) {
                    Some(x) => {
                        assert(tokens_view(before) + (seq![tok] + x) =~= tokens_view(before).push(tok) + x);
                    },
                    None => {},
                }
            }
            i = j;
        } else {
            return None;
        }
    }
    proof {
        assert(tokens_view(ts@) + Seq::<TokenV>::empty() =~= tokens_view(ts@));
    }
    Some(ts)
}

fn tokens_balanced(ts: &Vec<JsonToken>) -> (r: bool)
    ensures
        r == balanced(tokens_view(ts@), 0, Seq::empty()),
{
    let ghost tv = tokens_view(ts@);
    let mut open: Vec<u8> = Vec::new();
    let mut i: usize = 0;
    while i < ts.len()
        invariant
            i <= ts.len(),
            tv == tokens_view(ts@),
            balanced(tv, 0, Seq::empty()) == balanced(tv, i as int, open@),
        decreases ts.len() - i,
    {
        match &ts[i] {
            JsonToken::Punct(p) => {
                let p = *p;
                if p == 0x7B || p == 0x5B {
                    open.push(p);
                } else if p == 0x7D || p == 0x5D {
                    if open.len() == 0 {
                        return false;
                    }
                    let last = open[open.len() - 1];
                    let expected: u8 = if last == 0x7B { 0x7D } else { 0x5D };
                    if expected != p {
                        return false;
                    }
                    let ghost before = open@;
                    open.pop();
                    proof {
                        assert(open@ =~= before.drop_last());
                    }
                }
            },
            JsonToken::Scalar(_) => {},
        }
        i = i + 1;
    }
    open.len() == 0
}

fn tokens_apart(ts: &Vec<JsonToken>) -> (r: bool)
    ensures
        r == scalars_apart(tokens_view(ts@)),
{
    let ghost tv = tokens_view(ts@);
    let mut i: usize = 0;
    while i < ts.len() && i + 1 < ts.len()
        invariant
            i <= ts.len(),
            tv == tokens_view(ts@),
            forall|k: int, l: int| 0 <= k < i && l == k + 1 && l < tv.len() ==> !(#[trigger] tv[k] is Scalar && #[trigger] tv[l] is Scalar),
        decreases ts.len() - i,
    {
        let a = match &ts[i] {
            JsonToken::Scalar(_) => true,
            JsonToken::Punct(_) => false,
        };
        let b = match &ts[i + 1] {
            JsonToken::Scalar(_) => true,
            JsonToken::Punct(_) => false,
        };
        if a && b {
            proof {
                assert(tv[i as int] is Scalar && tv[i + 1] is Scalar);
            }
            return false;
        }
        i = i + 1;
    }
    true
}

fn push_indent(out: &mut Vec<u8>, depth: usize)
    ensures
        final(out)@ == old(out)@ + indent(depth as nat),
{
    let mut k: usize = 0;
    while k < depth
        invariant
            k <= depth,
            out@ == old(out)@ + Seq::new(2 * (k as nat), |x: int| 0x20u8),
        decreases depth - k,
    {
        out.push(0x20u8);
        out.push(0x20u8);
        proof {
            assert(Seq::new(2 * ((k + 1) as nat), |x: int| 0x20u8) =~= Seq::new(2 * (k as nat), |x: int| 0x20u8).push(
                0x20u8,
            ).push(0x20u8));
        }
        k = k + 1;
    }
}

fn push_bytes(out: &mut Vec<u8>, v: &Vec<u8>)
    ensures
        final(out)@ == old(out)@ + v@,
{
    let mut i: usize = 0;
    while i < v.len()
        invariant
            i <= v.len(),
            out@ == old(out)@ + v@.take(i as int),
        decreases v.len() - i,
    {
        out.push(v[i]);
        proof {
            assert(v@.take(i + 1) =~= v@.take(i as int).push(v@[i as int]));
        }
        i = i + 1;
    }
    proof {
        assert(v@.take(i as int) =~= v@);
    }
}

proof fn lemma_balanced_depth(ts: Seq<TokenV>, i: int, open: Seq<u8>)
    requires
        balanced(ts, i, open),
        0 <= i,
    ensures
        open.len() <= ts.len() - i || (i >= ts.len() && open.len() == 0),
    decreases ts.len() - i,
{
    if i < ts.len() {
        match ts[i] {
            TokenV::Punct(p) => if is_open(p) {
                lemma_balanced_depth(ts, i + 1, open.push(p));
            } else if is_close(p) {
                lemma_balanced_depth(ts, i + 1, open.drop_last());
            } else {
                lemma_balanced_depth(ts, i + 1, open);
            },
            TokenV::Scalar(_) => {
                lemma_balanced_depth(ts, i + 1, open);
            },
        }
    }
}

#[verifier::rlimit(60)]
fn lay_out(ts: &Vec<JsonToken>) -> (r: Vec<u8>)
    requires
        balanced(tokens_view(ts@), 0, Seq::empty()),
    ensures
        r@ == layout(tokens_view(ts@), 0, 0),
{
    let ghost tv = tokens_view(ts@);
    let ghost mut open: Seq<u8> = Seq::empty();
    let mut out: Vec<u8> = Vec::new();
    let mut depth: usize = 0;
    let mut i: usize = 0;
    proof {
        assert(out@ + layout(tv, 0, 0) =~= layout(tv, 0, 0));
    }
    while i < ts.len()
        invariant
            i <= ts.len(),
            tv == tokens_view(ts@),
            balanced(tv, i as int, open),
            open.len() == depth,
            depth <= i,
            layout(tv, 0, 0) == out@ + layout(tv, i as int, depth as nat),
        decreases ts.len() - i,
    {
        proof {
            lemma_balanced_depth(tv, i as int, open);
        }
        let ghost before = out@;
        match &ts[i] {
            JsonToken::Punct(p) => {
                let p = *p;
                if p == 0x7B || p == 0x5B {
                    let close: u8 = if p == 0x7B { 0x7D } else { 0x5D };
                    let empty = i + 1 < ts.len() && match &ts[i + 1] {
                        JsonToken::Punct(q) => *q == close,
                        JsonToken::Scalar(_) => false,
                    };
                    if empty {
                        out.push(p);
                        out.push(close);
                        proof {
                            assert(tv[i + 1] == TokenV::Punct(close));
                            assert(close == close_of(p));
                            assert(balanced(tv, i + 1, open.push(p)));
                            assert(open.push(p).last() == p);
                            assert(open.push(p).drop_last() =~= open);
                            assert(balanced(tv, i + 2, open));
                            assert(before + (seq![p, close] + layout(tv, i + 2, depth as nat)) =~= out@ + layout(tv, i + 2, depth as nat));
                        }
                        i = i + 2;
                    } else {
                        out.push(p);
                        out.push(0x0Au8);
                        push_indent(&mut out, depth + 1);
                        proof {
                            if i + 1 < tv.len() {
                                assert(tv[i + 1] != TokenV::Punct(close_of(p)));
                            }
                            assert(before + (seq![p, 0x0Au8] + indent((depth + 1) as nat) + layout(tv, i + 1, (depth + 1) as nat))
                                =~= out@ + layout(tv, i + 1, (depth + 1) as nat));
                            open = open.push(p);
                        }
                        depth = depth + 1;
                        i = i + 1;
                    }
                } else if p == 0x7D || p == 0x5D {
                    out.push(0x0Au8);
                    push_indent(&mut out, depth - 1);
                    out.push(p);
                    proof {
                        assert(before + (seq![0x0Au8] + indent((depth - 1) as nat) + seq![p] + layout(tv, i + 1, (depth - 1) as nat))
                            =~= out@ + layout(tv, i + 1, (depth - 1) as nat));
                        open = open.drop_last();
                    }
                    depth = depth - 1;
                    i = i + 1;
                } else if p == 0x2C {
                    out.push(0x2Cu8);
                    out.push(0x0Au8);
                    push_indent(&mut out, depth);
                    proof {
                        assert(before + (seq![0x2Cu8, 0x0Au8] + indent(depth as nat) + layout(tv, i + 1, depth as nat))
                            =~= out@ + layout(tv, i + 1, depth as nat));
                    }
                    i = i + 1;
                } else {
                    out.push(0x3Au8);
                    out.push(0x20u8);
                    proof {
                        assert(before + (seq![0x3Au8, 0x20u8] + layout(tv, i + 1, depth as nat)) =~= out@ + layout(
                            tv,
                            i + 1,
                            depth as nat,
                        ));
                    }
                    i = i + 1;
                }
            },
            JsonToken::Scalar(t) => {
                push_bytes(&mut out, t);
                proof {
                    assert(before + (t@ + layout(tv, i + 1, depth as nat)) =~= out@ + layout(tv, i + 1, depth as nat));
                }
                i = i + 1;
            },
        }
    }
    proof {
        assert(out@ + Seq::<u8>::empty() =~= out@);
    }
    out
}

/// The body prettified (see `pretty_json`).
pub fn prettify_json(b: &Vec<u8>) -> (r: Vec<u8>)
    ensures
        r@ == pretty_json(b@),
{
    match tokens_of(b) {
        None => copy_bytes(b, 0, b.len()),
        Some(ts) => {
            if tokens_balanced(&ts) && tokens_apart(&ts) {
                lay_out(&ts)
            } else {
                copy_bytes(b, 0, b.len())
            }
        },
    }
}

} // verus!
