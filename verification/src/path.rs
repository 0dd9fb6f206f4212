use vstd::prelude::*;
use crate::reader::{chars_of, string_of};

verus! {

/// A path is absolute when it starts at the root.
pub open spec fn is_absolute(p: Seq<char>) -> bool {
    p.len() > 0 && p[0] == '/'
}

/// `base` extended by `p`, as `PathBuf::push` does it: an absolute `p`
/// replaces `base`; otherwise a separator is added unless `base` is empty or
/// already ends with one.
pub open spec fn push_path(base: Seq<char>, p: Seq<char>) -> Seq<char> {
    if is_absolute(p) {
        p
    } else if base.len() == 0 || base.last() == '/' {
        base + p
    } else {
        base.push('/') + p
    }
}

/// The pieces of `p` between separators (empty pieces included).
pub open spec fn segments(p: Seq<char>) -> Seq<Seq<char>>
    decreases p.len(),
{
    if p.len() == 0 {
        seq![Seq::<char>::empty()]
    } else {
        let s = segments(p.drop_last());
        if p.last() == '/' {
            s.push(Seq::empty())
        } else {
            s.update(s.len() - 1, s.last().push(p.last()))
        }
    }
}

pub proof fn lemma_segments_nonempty(p: Seq<char>)
    ensures
        segments(p).len() >= 1,
    decreases p.len(),
{
    if p.len() > 0 {
        lemma_segments_nonempty(p.drop_last());
    }
}

/// One step of lexical normalization: empty pieces and `.` vanish, `..`
/// drops the last component (if any), other pieces are components.
pub open spec fn apply_segment(comps: Seq<Seq<char>>, seg: Seq<char>) -> Seq<Seq<char>> {
    if seg.len() == 0 || seg == seq!['.'] {
        comps
    } else if seg == seq!['.', '.'] {
        if comps.len() > 0 {
            comps.drop_last()
        } else {
            comps
        }
    } else {
        comps.push(seg)
    }
}

pub open spec fn fold_segments(segs: Seq<Seq<char>>) -> Seq<Seq<char>>
    decreases segs.len(),
{
    if segs.len() == 0 {
        Seq::empty()
    } else {
        apply_segment(fold_segments(segs.drop_last()), segs.last())
    }
}

/// The normal components of `p` once `.` and `..` are resolved lexically.
pub open spec fn normal_components(p: Seq<char>) -> Seq<Seq<char>> {
    fold_segments(segments(p))
}

/// `path`, once normalized, lies under `ancestor`, once normalized: both
/// are absolute or both relative, and the components of `ancestor` begin
/// those of `path`.
pub open spec fn is_descendant(path: Seq<char>, ancestor: Seq<char>) -> bool {
    let p = normal_components(path);
    let a = normal_components(ancestor);
    &&& is_absolute(path) == is_absolute(ancestor)
    &&& a.len() <= p.len()
    &&& p.take(a.len() as int) == a
}

pub open spec fn comps_view(v: Seq<Vec<char>>) -> Seq<Seq<char>> {
    v.map_values(|c: Vec<char>| c@)
}

fn push_path_chars(base: &Vec<char>, p: &Vec<char>) -> (r: Vec<char>)
    ensures
        r@ == push_path(base@, p@),
{
    let mut r: Vec<char> = Vec::new();
    if p.len() > 0 && p[0] == '/' {
        append_chars(&mut r, p);
        return r;
    }
    append_chars(&mut r, base);
    if base.len() > 0 && base[base.len() - 1] != '/' {
        r.push('/');
    }
    append_chars(&mut r, p);
    r
}

fn append_chars(out: &mut Vec<char>, v: &Vec<char>)
    ensures
        final(out)@ == old(out)@ + v@,
{
    let mut i: usize = 0;
    while i < v.len()
        invariant
            i <= v.len(),
            out@ == old(out)@ + v@.take(i as int),
        decreases v.len() - i,
    {
        out.push(v[i]);
        proof {
            assert(v@.take(i + 1) =~= v@.take(i as int).push(v@[i as int]));
        }
        i = i + 1;
    }
    proof {
        assert(v@.take(i as int) =~= v@);
    }
}

fn same_chars(a: &Vec<char>, b: &Vec<char>) -> (r: bool)
    ensures
        r == (a@ == b@),
{
    if a.len() != b.len() {
        return false;
    }
    let mut i: usize = 0;
    while i < a.len()
        invariant
            a.len() == b.len(),
            i <= a.len(),
            forall|j: int| 0 <= j < i ==> a@[j] == b@[j],
        decreases a.len() - i,
    {
        if a[i] != b[i] {
            return false;
        }
        i = i + 1;
    }
    proof {
        assert(a@ =~= b@);
    }
    true
}

fn apply_segment_exec(comps: &mut Vec<Vec<char>>, seg: Vec<char>)
    ensures
        comps_view(final(comps)@) == apply_segment(comps_view(old(comps)@), seg@),
{
    if seg.len() == 0 || (seg.len() == 1 && seg[0] == '.') {
        proof {
            if seg@.len() == 1 {
                assert(seg@ =~= seq!['.']);
            }
        }
        return;
    }
    if seg.len() == 2 && seg[0] == '.' && seg[1] == '.' {
        proof {
            assert(seg@ =~= seq!['.', '.']);
        }
        if comps.len() > 0 {
            let ghost before = comps@;
            comps.pop();
            proof {
                assert(comps_view(comps@) =~= comps_view(before).drop_last());
            }
        }
        return;
    }
    proof {
        assert(seg@ != seq!['.']) by {
            if seg@.len() == 1 {
                assert(seg@ =~= seq![seg@[0]]);
            }
        }
        assert(seg@ != seq!['.', '.']) by {
            if seg@.len() == 2 {
                assert(seq!['.', '.'][0] == '.');
                assert(seq!['.', '.'][1] == '.');
            }
        }
    }
    let ghost before = comps@;
    let ghost sv = seg@;
    comps.push(seg);
    proof {
        assert(comps_view(comps@) =~= comps_view(before).push(sv));
    }
}

/// The normal components of `p` (see `normal_components`).
fn components_of(p: &Vec<char>) -> (r: Vec<Vec<char>>)
    ensures
        comps_view(r@) == normal_components(p@),
{
    let mut comps: Vec<Vec<char>> = Vec::new();
    let mut cur: Vec<char> = Vec::new();
    let mut i: usize = 0;
    proof {
        assert(p@.take(0) =~= Seq::<char>::empty());
        assert(segments(p@.take(0)).drop_last() =~= Seq::<Seq<char>>::empty());
        assert(comps_view(comps@) =~= Seq::<Seq<char>>::empty());
    }
    while i < p.len()
        invariant
            i <= p.len(),
            segments(p@.take(i as int)).len() >= 1,
            comps_view(comps@) == fold_segments(segments(p@.take(i as int)).drop_last()),
            cur@ == segments(p@.take(i as int)).last(),
        decreases p.len() - i,
    {
        let c = p[i];
        let ghost segs = segments(p@.take(i as int));
        proof {
            assert(p@.take(i + 1).drop_last() =~= p@.take(i as int));
            assert(p@.take(i + 1).last() == c);
        }
        if c == '/' {
            let seg = cur;
            cur = Vec::new();
            apply_segment_exec(&mut comps, seg);
            proof {
                let nsegs = segments(p@.take(i + 1));
                assert(nsegs == segs.push(Seq::<char>::empty()));
                assert(nsegs.drop_last() =~= segs);
                assert(segs.drop_last().push(segs.last()) =~= segs);
                assert(fold_segments(segs) == apply_segment(fold_segments(segs.drop_last()), segs.last()));
                assert(cur@ =~= nsegs.last());
            }
        } else {
            cur.push(c);
            proof {
                let nsegs = segments(p@.take(i + 1));
                assert(nsegs == segs.update(segs.len() - 1, segs.last().push(c)));
                assert(nsegs.drop_last() =~= segs.drop_last());
            }
        }
        i = i + 1;
    }
    let ghost segs = segments(p@.take(i as int));
    apply_segment_exec(&mut comps, cur);
    proof {
        assert(p@.take(i as int) =~= p@);
        assert(segs.drop_last().push(segs.last()) =~= segs);
    }
    comps
}

fn is_descendant_exec(path: &Vec<char>, ancestor: &Vec<char>) -> (r: bool)
    ensures
        r == is_descendant(path@, ancestor@),
{
    let path_abs = path.len() > 0 && path[0] == '/';
    let anc_abs = ancestor.len() > 0 && ancestor[0] == '/';
    if path_abs != anc_abs {
        return false;
    }
    let p = components_of(path);
    let a = components_of(ancestor);
    if a.len() > p.len() {
        return false;
    }
    let mut i: usize = 0;
    while i < a.len()
        invariant
            a.len() <= p.len(),
            i <= a.len(),
            comps_view(p@) == normal_components(path@),
            comps_view(a@) == normal_components(ancestor@),
            is_absolute(path@) == is_absolute(ancestor@),
            forall|j: int| 0 <= j < i ==> comps_view(p@)[j] == comps_view(a@)[j],
        decreases a.len() - i,
    {
        if !same_chars(&p[i], &a[i]) {
            proof {
                assert(comps_view(p@).take(a.len() as int)[i as int] == comps_view(p@)[i as int]);
            }
            return false;
        }
        i = i + 1;
    }
    proof {
        assert(comps_view(p@).take(a.len() as int) =~= comps_view(a@));
    }
    true
}

/// The directories that file access is resolved against and limited to.
#[derive(Clone, Debug, PartialEq, Eq)]
pub struct ContextDir {
    pub current_dir: String,
    pub file_root: String,
}

/// Where `filename` resolves: under the file root unless it is absolute.
pub open spec fn resolved(ctx: ContextDir, filename: Seq<char>) -> Seq<char> {
    push_path(ctx.file_root@, filename)
}

/// `root` and the relative name `f` put together, with one separator
/// between them unless `root` is empty or already ends with one.
pub open spec fn joined_under(root: Seq<char>, f: Seq<char>) -> Seq<char> {
    if root.len() == 0 || root.last() == '/' {
        root + f
    } else {
        root + seq!['/'] + f
    }
}

/// Access is allowed when the resolved file, taken from the current
/// directory, lies under the file root, taken from the current directory.
pub open spec fn access_allowed(ctx: ContextDir, filename: Seq<char>) -> bool {
    is_descendant(push_path(ctx.current_dir@, resolved(ctx, filename)), push_path(ctx.current_dir@, ctx.file_root@))
}

impl ContextDir {
    pub fn new(current_dir: &str, file_root: &str) -> (c: ContextDir)
        ensures
            c.current_dir@ == current_dir@,
            c.file_root@ == file_root@,
    {
        ContextDir { current_dir: String::from_str(current_dir), file_root: String::from_str(file_root) }
    }

    /// The path that `filename` designates: joined to the file root.
    pub fn resolved_path(&self, filename: &str) -> (p: String)
        ensures
            p@ == resolved(*self, filename@),
            is_absolute(filename@) ==> p@ == filename@,
            !is_absolute(filename@) ==> p@ == joined_under(self.file_root@, filename@),
    {
        let root = chars_of(self.file_root.as_str());
        let f = chars_of(filename);
        let r = push_path_chars(&root, &f);
        string_of(r.as_slice())
    }

    /// Whether `filename` may be accessed: it must lie under the file root.
    pub fn is_access_allowed(&self, filename: &str) -> (b: bool)
        ensures
            b == access_allowed(*self, filename@),
    {
        let cur = chars_of(self.current_dir.as_str());
        let root = chars_of(self.file_root.as_str());
        let f = chars_of(filename);
        let file = push_path_chars(&root, &f);
        let absolute_file = push_path_chars(&cur, &file);
        let absolute_root = push_path_chars(&cur, &root);
        is_descendant_exec(&absolute_file, &absolute_root)
    }
}

/// No piece of `p` is `..`.
pub open spec fn has_no_parent_segment(p: Seq<char>) -> bool {
    forall|i: int| 0 <= i < segments(p).len() ==> segments(p)[i] != seq!['.', '.']
}

proof fn lemma_segments_concat(a: Seq<char>, b: Seq<char>)
    ensures
        segments(a + seq!['/'] + b) == segments(a) + segments(b),
    decreases b.len(),
{
    if b.len() == 0 {
        assert(a + seq!['/'] + b =~= a.push('/'));
        assert((a.push('/')).drop_last() =~= a);
        assert(segments(a).push(Seq::<char>::empty()) =~= segments(a) + seq![Seq::<char>::empty()]);
    } else {
        lemma_segments_concat(a, b.drop_last());
        lemma_segments_nonempty(b.drop_last());
        let whole = a + seq!['/'] + b;
        assert(whole.drop_last() =~= a + seq!['/'] + b.drop_last());
        assert(whole.last() == b.last());
        let sa = segments(a);
        let sb = segments(b.drop_last());
        if b.last() == '/' {
            assert((sa + sb).push(Seq::<char>::empty()) =~= sa + sb.push(Seq::<char>::empty()));
        } else {
            assert((sa + sb).update((sa + sb).len() - 1, (sa + sb).last().push(b.last())) =~= sa + sb.update(
                sb.len() - 1,
                sb.last().push(b.last()),
            ));
        }
    }
}

proof fn lemma_fold_concat(s1: Seq<Seq<char>>, s2: Seq<Seq<char>>)
    requires
        forall|i: int| 0 <= i < s2.len() ==> s2[i] != seq!['.', '.'],
    ensures
        fold_segments(s1 + s2) == fold_segments(s1) + fold_segments(s2),
    decreases s2.len(),
{
    if s2.len() == 0 {
        assert(s1 + s2 =~= s1);
        assert(fold_segments(s1) + Seq::<Seq<char>>::empty() =~= fold_segments(s1));
    } else {
        lemma_fold_concat(s1, s2.drop_last());
        assert((s1 + s2).drop_last() =~= s1 + s2.drop_last());
        assert((s1 + s2).last() == s2.last());
        let f1 = fold_segments(s1);
        let f2 = fold_segments(s2.drop_last());
        let seg = s2.last();
        assert(seg != seq!['.', '.']);
        if seg.len() == 0 || seg == seq!['.'] {
        } else {
            assert((f1 + f2).push(seg) =~= f1 + f2.push(seg));
        }
    }
}

proof fn lemma_push_components(base: Seq<char>, f: Seq<char>)
    requires
        !is_absolute(f),
        has_no_parent_segment(f),
    ensures
        normal_components(push_path(base, f)) == normal_components(base) + normal_components(f),
        is_absolute(push_path(base, f)) == is_absolute(base),
{
    let sf = segments(f);
    assert(forall|i: int| 0 <= i < sf.len() ==> sf[i] != seq!['.', '.']);
    if base.len() == 0 {
        assert(base + f =~= f);
        assert(segments(base) =~= seq![Seq::<char>::empty()]);
        let sb = segments(base);
        assert(sb.drop_last() =~= Seq::<Seq<char>>::empty());
        assert(fold_segments(sb.drop_last()) =~= Seq::<Seq<char>>::empty());
        assert(sb.last().len() == 0);
        assert(normal_components(base) =~= Seq::<Seq<char>>::empty());
        assert(Seq::<Seq<char>>::empty() + normal_components(f) =~= normal_components(f));
    } else if base.last() == '/' {
        let b0 = base.drop_last();
        assert(base + f =~= b0 + seq!['/'] + f);
        lemma_segments_concat(b0, f);
        lemma_fold_concat(segments(b0), sf);
        assert(base =~= b0.push('/'));
        assert(segments(base) == segments(b0).push(Seq::<char>::empty()));
        assert(segments(base).drop_last() =~= segments(b0));
        assert((base + f)[0] == base[0]);
    } else {
        assert(base.push('/') + f =~= base + seq!['/'] + f);
        lemma_segments_concat(base, f);
        lemma_fold_concat(segments(base), sf);
        assert((base.push('/') + f)[0] == base[0]);
    }
}

proof fn lemma_push_assoc(a: Seq<char>, b: Seq<char>, c: Seq<char>)
    requires
        !is_absolute(b),
        !is_absolute(c),
    ensures
        !is_absolute(push_path(b, c)),
        push_path(a, push_path(b, c)) == push_path(push_path(a, b), c),
{
    let bc = push_path(b, c);
    if b.len() > 0 {
        if b.last() == '/' {
            assert((b + c)[0] == b[0]);
        } else {
            assert((b.push('/') + c)[0] == b[0]);
        }
    }
    if b.len() == 0 {
        assert(b + c =~= c);
        if a.len() == 0 {
            assert(a + b =~= a);
            assert(a + c =~= c);
        } else if a.last() == '/' {
            assert(a + b =~= a);
        } else {
            let ab = a.push('/') + b;
            assert(ab =~= a.push('/'));
            assert(ab.last() == '/');
        }
    } else {
        let ab = push_path(a, b);
        if a.len() == 0 {
            assert(a + b =~= b);
            assert(a + bc =~= bc);
        } else if a.last() == '/' {
            assert((a + b).last() == b.last());
            if b.last() == '/' {
                assert(a + (b + c) =~= (a + b) + c);
            } else {
                assert(a + (b.push('/') + c) =~= (a + b).push('/') + c);
            }
        } else {
            assert((a.push('/') + b).last() == b.last());
            if b.last() == '/' {
                assert(a.push('/') + (b + c) =~= (a.push('/') + b) + c);
            } else {
                assert(a.push('/') + (b.push('/') + c) =~= (a.push('/') + b).push('/') + c);
            }
        }
    }
}

/// A relative file name with no `..` piece always stays under the file
/// root, so access to it is allowed.
pub proof fn lemma_relative_file_allowed(ctx: ContextDir, filename: Seq<char>)
    requires
        !is_absolute(filename),
        has_no_parent_segment(filename),
    ensures
        access_allowed(ctx, filename),
{
    let cur = ctx.current_dir@;
    let root = ctx.file_root@;
    let r = if is_absolute(root) {
        assert(push_path(root, filename)[0] == '/') by {
            if root.last() == '/' {
                assert((root + filename)[0] == root[0]);
            } else {
                assert((root.push('/') + filename)[0] == root[0]);
            }
        }
        root
    } else {
        lemma_push_assoc(cur, root, filename);
        push_path(cur, root)
    };
    lemma_push_components(r, filename);
    let p = normal_components(push_path(r, filename));
    let a = normal_components(r);
    assert(p.take(a.len() as int) =~= a);
}


/// An absolute file name designates itself, whatever the file root.
pub proof fn law_absolute_name_resolves_to_itself(ctx: ContextDir, filename: Seq<char>)
    requires
        is_absolute(filename),
    ensures
        resolved(ctx, filename) == filename,
{
}

/// A relative file name designates the file root joined with it.
pub proof fn law_relative_name_resolves_under_root(ctx: ContextDir, filename: Seq<char>)
    requires
        !is_absolute(filename),
    ensures
        resolved(ctx, filename) == joined_under(ctx.file_root@, filename),
        resolved(ctx, filename).subrange(0, ctx.file_root@.len() as int) == ctx.file_root@,
{
    let root = ctx.file_root@;
    if !(root.len() == 0 || root.last() == '/') {
        assert(root.push('/') =~= root + seq!['/']);
    }
    assert(resolved(ctx, filename).subrange(0, root.len() as int) =~= root);
}

/// The access check is made on the very path that the name resolves to:
/// access is allowed exactly when that path, taken from the current
/// directory, lies under the file root taken from the current directory.
pub proof fn law_access_checks_resolved_path(ctx: ContextDir, filename: Seq<char>)
    ensures
        access_allowed(ctx, filename) == is_descendant(
            push_path(ctx.current_dir@, resolved(ctx, filename)),
            push_path(ctx.current_dir@, ctx.file_root@),
        ),
        is_absolute(filename) ==> access_allowed(ctx, filename) == is_descendant(
            filename,
            push_path(ctx.current_dir@, ctx.file_root@),
        ),
{
}

} // verus!
