//! Archive entry names: resolving a reference against the directory of the
//! document that makes it.

use vstd::prelude::*;
use vstd::string::{StrSliceExecFns, StringExecFns};
use crate::text::str_eq;

verus! {

/// The directory part of `p`: everything before its last `/`, or nothing.
pub open spec fn dir_of(p: Seq<char>) -> Seq<char>
    decreases p.len(),
{
    if p.len() == 0 {
        p
    } else if p.last() == '/' {
        p.drop_last()
    } else {
        dir_of(p.drop_last())
    }
}

/// Adds one segment to a stack of directory names: empty and `.` segments
/// change nothing, `..` leaves the last directory (if any).
pub open spec fn push_segment(stack: Seq<Seq<char>>, seg: Seq<char>) -> Seq<Seq<char>> {
    if seg.len() == 0 || seg == seq!['.'] {
        stack
    } else if seg == seq!['.', '.'] {
        if stack.len() > 0 {
            stack.drop_last()
        } else {
            stack
        }
    } else {
        stack.push(seg)
    }
}

/// The segments of `s` completed so far, and the segment being read.
pub open spec fn norm_state(s: Seq<char>) -> (Seq<Seq<char>>, Seq<char>)
    decreases s.len(),
{
    if s.len() == 0 {
        (seq![], seq![])
    } else {
        let (stack, cur) = norm_state(s.drop_last());
        if s.last() == '/' {
            (push_segment(stack, cur), seq![])
        } else {
            (stack, cur.push(s.last()))
        }
    }
}

/// The segments of `s` after `.` and `..` have been applied.
pub open spec fn normalized_segments(s: Seq<char>) -> Seq<Seq<char>> {
    push_segment(norm_state(s).0, norm_state(s).1)
}

/// Segments joined with `/`.
pub open spec fn join_path(segs: Seq<Seq<char>>) -> Seq<char>
    decreases segs.len(),
{
    if segs.len() == 0 {
        seq![]
    } else if segs.len() == 1 {
        segs[0]
    } else {
        join_path(segs.drop_last()) + seq!['/'] + segs.last()
    }
}

/// The archive entry that `href` names when it appears in the document at
/// `base`.
pub open spec fn resolve_href(base: Seq<char>, href: Seq<char>) -> Seq<char> {
    join_path(normalized_segments(dir_of(base) + seq!['/'] + href))
}

/// The directory part of `p`.
fn dir_part(p: &str) -> (r: String)
    ensures
        r@ == dir_of(p@),
{
    let n = p.unicode_len();
    let mut i: usize = n;
    assert(p@.subrange(0, n as int) =~= p@);
    while i > 0
        invariant
            i <= n,
            n == p@.len(),
            dir_of(p@) == dir_of(p@.subrange(0, i as int)),
        decreases i,
    {
        let ghost pre = p@.subrange(0, i as int);
        assert(pre.drop_last() =~= p@.subrange(0, i - 1));
        if p.get_char(i - 1) == '/' {
            return p.substring_char(0, i - 1).to_string();
        }
        i = i - 1;
    }
    String::new()
}

/// Applies one segment to the stack, as `push_segment` says.
fn push_seg(stack: &mut Vec<String>, seg: &str)
    ensures
        final(stack)@.map_values(|x: String| x@) == push_segment(
            old(stack)@.map_values(|x: String| x@),
            seg@,
        ),
{
    proof {
        reveal_strlit(".");
        reveal_strlit("..");
        assert("."@ =~= seq!['.']);
        assert(".."@ =~= seq!['.', '.']);
    }
    if seg.unicode_len() == 0 || str_eq(seg, ".") {
        assert(seg@.len() == 0 || seg@ == seq!['.']);
    } else if str_eq(seg, "..") {
        assert(seg@ == seq!['.', '.']);
        if stack.len() > 0 {
            stack.pop();
            assert(stack@.map_values(|x: String| x@) =~= old(stack)@.map_values(
                |x: String| x@,
            ).drop_last());
        }
    } else {
        assert(seg@ != seq!['.'] && seg@ != seq!['.', '.']);
        stack.push(seg.to_string());
        assert(stack@.map_values(|x: String| x@) =~= old(stack)@.map_values(|x: String| x@).push(
            seg@,
        ));
    }
}

/// Splits `s` on `/` and applies `.` and `..` segments.
fn normalize(s: &str) -> (r: Vec<String>)
    ensures
        r@.map_values(|x: String| x@) == normalized_segments(s@),
{
    let n = s.unicode_len();
    let mut stack: Vec<String> = Vec::new();
    let mut start: usize = 0;
    let mut i: usize = 0;
    while i < n
        invariant
            n == s@.len(),
            start <= i <= n,
            stack@.map_values(|x: String| x@) == norm_state(s@.subrange(0, i as int)).0,
            s@.subrange(start as int, i as int) == norm_state(s@.subrange(0, i as int)).1,
        decreases n - i,
    {
        let ghost pre = s@.subrange(0, i + 1);
        assert(pre.drop_last() =~= s@.subrange(0, i as int));
        if s.get_char(i) == '/' {
            push_seg(&mut stack, s.substring_char(start, i));
            start = i + 1;
            assert(s@.subrange(start as int, i + 1) =~= seq![]);
        } else {
            assert(s@.subrange(start as int, i + 1) =~= s@.subrange(start as int, i as int).push(
                s@[i as int],
            ));
        }
        i = i + 1;
    }
    assert(s@.subrange(0, n as int) =~= s@);
    push_seg(&mut stack, s.substring_char(start, n));
    stack
}

/// Joins segments with `/`.
fn join_segments(segs: &Vec<String>) -> (r: String)
    ensures
        r@ == join_path(segs@.map_values(|x: String| x@)),
{
    proof {
        reveal_strlit("/");
        assert("/"@ =~= seq!['/']);
    }
    let ghost views = segs@.map_values(|x: String| x@);
    let mut out = String::new();
    let mut k: usize = 0;
    while k < segs.len()
        invariant
            k <= segs@.len(),
            views == segs@.map_values(|x: String| x@),
            out@ == join_path(views.subrange(0, k as int)),
            "/"@ == seq!['/'],
        decreases segs.len() - k,
    {
        let ghost next = views.subrange(0, k + 1);
        assert(next.drop_last() =~= views.subrange(0, k as int));
        assert(next.last() == segs@[k as int]@);
        if k > 0 {
            let ghost before = out@;
            out.append("/");
            out.append(segs[k].as_str());
            assert(out@ =~= before + seq!['/'] + next.last());
        } else {
            out.append(segs[k].as_str());
            assert(out@ =~= next[0]);
        }
        k = k + 1;
    }
    assert(views.subrange(0, segs@.len() as int) =~= views);
    out
}

/// Resolves `href`, found in the document at `base`, to an archive entry
/// name: the directory of `base` joined with `href`, with `.` and `..`
/// segments applied.
pub fn resolve_path(base: &str, href: &str) -> (r: String)
    ensures
        r@ == resolve_href(base@, href@),
{
    proof {
        reveal_strlit("/");
        assert("/"@ =~= seq!['/']);
    }
    let mut joined = dir_part(base);
    joined.append("/");
    joined.append(href);
    let segs = normalize(joined.as_str());
    join_segments(&segs)
}

/// Whether `s` holds no `/`.
pub open spec fn no_slash(s: Seq<char>) -> bool {
    forall|i: int| 0 <= i < s.len() ==> #[trigger] s[i] != '/'
}

/// Whether `s` is a plain segment: non-empty, without `/`, neither `.` nor
/// `..`.
pub open spec fn plain_segment(s: Seq<char>) -> bool {
    s.len() > 0 && no_slash(s) && s != seq!['.'] && s != seq!['.', '.']
}

/// The directory of `d/f` is `d`.
proof fn lemma_dir_of(d: Seq<char>, f: Seq<char>)
    requires
        no_slash(f),
    ensures
        dir_of(d + seq!['/'] + f) == d,
    decreases f.len(),
{
    let p = d + seq!['/'] + f;
    if f.len() == 0 {
        assert(p.drop_last() =~= d);
    } else {
        let g = f.drop_last();
        assert forall|i: int| 0 <= i < g.len() implies #[trigger] g[i] != '/' by {
            assert(g[i] == f[i]);
        }
        lemma_dir_of(d, g);
        assert(p.drop_last() =~= d + seq!['/'] + g);
        assert(p.last() == f[f.len() - 1]);
    }
}

/// Reading characters without `/` extends the segment being read.
proof fn lemma_norm_segment(a: Seq<char>, w: Seq<char>)
    requires
        no_slash(w),
    ensures
        norm_state(a + w) == (norm_state(a).0, norm_state(a).1 + w),
    decreases w.len(),
{
    if w.len() == 0 {
        assert(a + w =~= a);
        assert(norm_state(a).1 + w =~= norm_state(a).1);
    } else {
        let pre = w.drop_last();
        assert forall|i: int| 0 <= i < pre.len() implies #[trigger] pre[i] != '/' by {
            assert(pre[i] == w[i]);
        }
        lemma_norm_segment(a, pre);
        assert((a + w).drop_last() =~= a + pre);
        assert((a + w).last() == w[w.len() - 1]);
        assert(norm_state(a).1 + w =~= (norm_state(a).1 + pre).push(w.last()));
    }
}

/// A package document at `d/f` that names `h1/h2`, all plain segments,
/// names the archive entry `d/h1/h2`.
pub proof fn lemma_relative_resolution(d: Seq<char>, f: Seq<char>, h1: Seq<char>, h2: Seq<char>)
    requires
        plain_segment(d),
        no_slash(f),
        plain_segment(h1),
        plain_segment(h2),
    ensures
        resolve_href(d + seq!['/'] + f, h1 + seq!['/'] + h2) == d + seq!['/'] + h1 + seq!['/'] + h2,
{
    let e: Seq<char> = seq![];
    let empty_stack: Seq<Seq<char>> = seq![];
    lemma_dir_of(d, f);
    lemma_norm_segment(e, d);
    assert(e + d =~= d);
    assert(norm_state(e) == (empty_stack, e));
    let a1 = d + seq!['/'];
    assert(a1.drop_last() =~= d);
    assert(norm_state(a1) == (seq![d], e));
    lemma_norm_segment(a1, h1);
    assert(e + h1 =~= h1);
    let a2 = a1 + h1 + seq!['/'];
    assert(a2.drop_last() =~= a1 + h1);
    assert(norm_state(a2) == (seq![d].push(h1), e));
    lemma_norm_segment(a2, h2);
    assert(e + h2 =~= h2);
    let full = d + seq!['/'] + (h1 + seq!['/'] + h2);
    assert(full =~= a2 + h2);
    let segs = seq![d, h1, h2];
    assert(seq![d].push(h1).push(h2) =~= segs);
    assert(normalized_segments(full) == segs);
    assert(segs.drop_last() =~= seq![d, h1]);
    assert(seq![d, h1].drop_last() =~= seq![d]);
    assert(join_path(seq![d]) == d);
    assert(join_path(seq![d, h1]) == d + seq!['/'] + h1);
    assert(join_path(segs) == d + seq!['/'] + h1 + seq!['/'] + h2);
}

} // verus!
