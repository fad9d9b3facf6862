//! Unix paths as text: components, parents, extensions and joining.

use crate::text::{chars_of, lemma_position_of, position_of, text_of};
use vstd::prelude::*;
use vstd::string::StringExecFns;

verus! {

/// Where the component that starts at `from` ends: at the next slash, or at the end of `p`.
pub open spec fn segment_end(p: Seq<char>, from: int) -> int {
    from + position_of(p.skip(from), '/')
}

/// Whether `segment` names nothing: repeated slashes leave empty ones, and a dot stands for the
/// place where it is.
pub open spec fn is_void(segment: Seq<char>) -> bool {
    segment == ""@ || segment == "."@
}

/// The spans of the components of `p` that start at `from` or later.
pub open spec fn spans_from(p: Seq<char>, from: int) -> Seq<(int, int)>
    decreases
            if from < p.len() {
                p.len() - from
            } else {
                0
            },
{
    if from < 0 || from >= p.len() {
        Seq::empty()
    } else {
        let end = segment_end(p, from);
        if is_void(p.subrange(from, end)) {
            spans_from(p, end + 1)
        } else {
            seq![(from, end)] + spans_from(p, end + 1)
        }
    }
}

/// The spans of the components of `p`: a slash at the start is the root, and a dot counts only
/// where a relative path begins with it.
pub open spec fn spans(p: Seq<char>) -> Seq<(int, int)> {
    if p.len() > 0 && p[0] == '/' {
        seq![(0int, 1int)] + spans_from(p, 1)
    } else if p.len() > 0 && p.take(segment_end(p, 0)) == "."@ {
        seq![(0int, 1int)] + spans_from(p, 2)
    } else {
        spans_from(p, 0)
    }
}

/// The components of `p`. The root is written as a slash.
pub open spec fn components(p: Seq<char>) -> Seq<Seq<char>> {
    spans(p).map_values(|s: (int, int)| p.subrange(s.0, s.1))
}

/// The path without its last component: none where there is no component but the root.
pub open spec fn parent_of(p: Seq<char>) -> Option<Seq<char>> {
    let s = spans(p);
    if s.len() == 0 || components(p).last() == "/"@ {
        None
    } else if s.len() == 1 {
        Some(Seq::empty())
    } else {
        Some(p.take(s[s.len() - 2].1))
    }
}

/// The last component of `p`, where that is a name.
pub open spec fn file_name_of(p: Seq<char>) -> Option<Seq<char>> {
    let c = components(p);
    if c.len() == 0 || c.last() == "/"@ || c.last() == "."@ || c.last() == ".."@ {
        None
    } else {
        Some(c.last())
    }
}

/// The position of the last dot in `s`; -1 where there is none.
pub open spec fn last_dot(s: Seq<char>) -> int
    decreases s.len(),
{
    if s.len() == 0 || s.last() == '.' {
        s.len() - 1
    } else {
        last_dot(s.drop_last())
    }
}

/// What stands after the last dot of the file name, unless that dot begins the name.
pub open spec fn extension_of(p: Seq<char>) -> Option<Seq<char>> {
    match file_name_of(p) {
        None => None,
        Some(name) => if last_dot(name) > 0 {
            Some(name.skip(last_dot(name) + 1))
        } else {
            None
        },
    }
}

/// `tail` below `base`; an absolute `tail` stands for itself.
pub open spec fn joined(base: Seq<char>, tail: Seq<char>) -> Seq<char> {
    if tail.len() > 0 && tail[0] == '/' {
        tail
    } else if base.len() == 0 || base.last() == '/' {
        base + tail
    } else {
        base + "/"@ + tail
    }
}

/// The spans that `v` holds.
spec fn span_view(v: Seq<(usize, usize)>) -> Seq<(int, int)> {
    v.map_values(|s: (usize, usize)| (s.0 as int, s.1 as int))
}

fn segment_end_at(p: &[char], from: usize) -> (r: usize)
    requires
        from <= p@.len(),
    ensures
        r == segment_end(p@, from as int),
        from <= r <= p@.len(),
{
    let n: usize = p.len();
    let ghost rest = p@.skip(from as int);
    let mut end: usize = from;
    while end < n && p[end] != '/'
        invariant
            n == p@.len(),
            from <= end <= n,
            rest == p@.skip(from as int),
            forall|k: int| 0 <= k < end - from ==> rest[k] != '/',
        decreases n - end,
    {
        end = end + 1;
    }
    proof {
        lemma_position_of(rest, '/', end - from);
    }
    end
}

fn spans_of(p: &[char]) -> (r: Vec<(usize, usize)>)
    ensures
        span_view(r@) == spans(p@),
        forall|i: int| 0 <= i < r@.len() ==> (#[trigger] r@[i]).0 < r@[i].1 <= p@.len(),
{
    proof {
        reveal_strlit("");
        reveal_strlit(".");
    }
    let n: usize = p.len();
    let mut out: Vec<(usize, usize)> = Vec::new();
    let mut from: usize = 0;
    if n > 0 {
        let end: usize = segment_end_at(p, 0);
        if p[0] == '/' {
            out.push((0, 1));
            from = 1;
        } else if end == 1 && p[0] == '.' {
            assert(p@.take(1) =~= "."@);
            out.push((0, 1));
            from = if n > 1 { 2 } else { 1 };
        } else {
            assert(p@.take(end as int) != "."@) by {
                assert(p@.take(end as int).len() == end);
                if end == 1 {
                    assert(p@.take(end as int)[0] == p@[0]);
                }
            }
        }
    }
    assert(span_view(out@) + spans_from(p@, from as int) =~= spans(p@));
    while from < n
        invariant
            n == p@.len(),
            span_view(out@) + spans_from(p@, from as int) == spans(p@),
            "."@.len() == 1 && "."@[0] == '.',
            ""@.len() == 0,
            forall|i: int| 0 <= i < out@.len() ==> (#[trigger] out@[i]).0 < out@[i].1 <= n,
        decreases n - from,
    {
        let end: usize = segment_end_at(p, from);
        let ghost segment = p@.subrange(from as int, end as int);
        let ghost before = out@;
        if end == from || (end - from == 1 && p[from] == '.') {
            assert(segment =~= ""@ || segment =~= "."@);
        } else {
            assert(!is_void(segment)) by {
                assert(segment.len() == end - from);
                assert(segment[0] == p@[from as int]);
            }
            out.push((from, end));
            assert(span_view(out@) =~= span_view(before) + seq![(from as int, end as int)]);
        }
        assert(span_view(out@) + spans_from(p@, end + 1) =~= span_view(before) + spans_from(
            p@,
            from as int,
        ));
        if end == n {
            assert(spans_from(p@, end + 1) =~= Seq::<(int, int)>::empty());
            assert(spans_from(p@, n as int) =~= Seq::<(int, int)>::empty());
            from = n;
        } else {
            from = end + 1;
        }
    }
    assert(span_view(out@) =~= spans(p@));
    out
}

/// Whether the characters of `p` in `span` are those of `word`.
fn span_is(p: &[char], span: (usize, usize), word: &[char]) -> (r: bool)
    requires
        span.0 < span.1 <= p@.len(),
    ensures
        r == (p@.subrange(span.0 as int, span.1 as int) == word@),
{
    let ghost text = p@.subrange(span.0 as int, span.1 as int);
    if span.1 - span.0 != word.len() {
        return false;
    }
    for i in 0..word.len()
        invariant
            span.0 < span.1 <= p@.len(),
            span.1 - span.0 == word@.len(),
            text == p@.subrange(span.0 as int, span.1 as int),
            forall|k: int| 0 <= k < i ==> text[k] == word@[k],
    {
        if p[span.0 + i] != word[i] {
            assert(text[i as int] != word@[i as int]);
            return false;
        }
    }
    assert(text =~= word@);
    true
}

/// Whether `a` and `b` have the same components.
pub fn same_path(a: &str, b: &str) -> (r: bool)
    ensures
        r == (components(a@) == components(b@)),
{
    let x = chars_of(a);
    let y = chars_of(b);
    let s = spans_of(x.as_slice());
    let t = spans_of(y.as_slice());
    assert(components(a@).len() == s@.len());
    assert(components(b@).len() == t@.len());
    assert(forall|k: int|
        #![trigger s@[k]]
        0 <= k < s@.len() ==> span_view(s@)[k] == (s@[k].0 as int, s@[k].1 as int));
    assert(forall|k: int|
        #![trigger t@[k]]
        0 <= k < t@.len() ==> span_view(t@)[k] == (t@[k].0 as int, t@[k].1 as int));
    if s.len() != t.len() {
        return false;
    }
    for i in 0..s.len()
        invariant
            x@ == a@,
            y@ == b@,
            s@.len() == t@.len(),
            components(a@).len() == s@.len(),
            components(b@).len() == t@.len(),
            forall|k: int| 0 <= k < s@.len() ==> (#[trigger] s@[k]).0 < s@[k].1 <= x@.len(),
            forall|k: int| 0 <= k < t@.len() ==> (#[trigger] t@[k]).0 < t@[k].1 <= y@.len(),
            forall|k: int|
                0 <= k < s@.len() ==> #[trigger] components(a@)[k] == x@.subrange(
                    s@[k].0 as int,
                    s@[k].1 as int,
                ),
            forall|k: int|
                0 <= k < t@.len() ==> #[trigger] components(b@)[k] == y@.subrange(
                    t@[k].0 as int,
                    t@[k].1 as int,
                ),
            forall|k: int| 0 <= k < i ==> components(a@)[k] == components(b@)[k],
    {
        let word = vstd::slice::slice_subrange(y.as_slice(), t[i].0, t[i].1);
        if !span_is(x.as_slice(), s[i], word) {
            assert(components(a@)[i as int] != components(b@)[i as int]);
            return false;
        }
    }
    assert(components(a@) =~= components(b@));
    true
}

/// The path without its last component.
pub fn parent(p: &str) -> (r: Option<String>)
    ensures
        match r {
            Some(q) => parent_of(p@) == Some(q@),
            None => parent_of(p@) is None,
        },
{
    let x = chars_of(p);
    let s = spans_of(x.as_slice());
    let n: usize = s.len();
    assert(spans(p@).len() == n);
    if n == 0 {
        return None;
    }
    assert(spans(p@)[n - 1] == (s@[n - 1].0 as int, s@[n - 1].1 as int));
    assert(components(p@).last() == p@.subrange(s@[n - 1].0 as int, s@[n - 1].1 as int));
    let slash = chars_of("/");
    if span_is(x.as_slice(), s[n - 1], slash.as_slice()) {
        return None;
    }
    if n == 1 {
        return Some(String::new());
    }
    assert(spans(p@)[n - 2] == (s@[n - 2].0 as int, s@[n - 2].1 as int));
    let end: usize = s[n - 2].1;
    assert(x@.subrange(0, end as int) == p@.take(end as int));
    Some(text_of(vstd::slice::slice_subrange(x.as_slice(), 0, end)))
}

/// The extension of the file that `p` names.
pub fn extension(p: &str) -> (r: Option<String>)
    ensures
        match r {
            Some(e) => extension_of(p@) == Some(e@),
            None => extension_of(p@) is None,
        },
{
    let x = chars_of(p);
    let s = spans_of(x.as_slice());
    let n: usize = s.len();
    assert(spans(p@).len() == n);
    if n == 0 {
        return None;
    }
    let last: (usize, usize) = s[n - 1];
    assert(spans(p@)[n - 1] == (last.0 as int, last.1 as int));
    let ghost name = p@.subrange(last.0 as int, last.1 as int);
    assert(components(p@).last() == name);
    if span_is(x.as_slice(), last, chars_of("/").as_slice()) || span_is(
        x.as_slice(),
        last,
        chars_of(".").as_slice(),
    ) || span_is(x.as_slice(), last, chars_of("..").as_slice()) {
        return None;
    }
    let mut dot: usize = last.1;
    assert(name.take(name.len() as int) == name);
    while dot > last.0 && x[dot - 1] != '.'
        invariant
            x@ == p@,
            last.0 <= dot <= last.1 <= x@.len(),
            name == p@.subrange(last.0 as int, last.1 as int),
            last_dot(name) == last_dot(name.take(dot - last.0)),
        decreases dot,
    {
        assert(name.take(dot - last.0).last() == x@[dot - 1]);
        assert(name.take(dot - last.0).drop_last() == name.take(dot - last.0 - 1));
        dot = dot - 1;
    }
    if dot == last.0 {
        assert(last_dot(name) == -1);
        return None;
    }
    assert(name.take(dot - last.0).last() == x@[dot - 1]);
    assert(last_dot(name) == dot - last.0 - 1);
    if dot - 1 == last.0 {
        return None;
    }
    assert(x@.subrange(dot as int, last.1 as int) == name.skip(last_dot(name) + 1));
    Some(text_of(vstd::slice::slice_subrange(x.as_slice(), dot, last.1)))
}

/// Puts `tail` below `base`.
pub fn join(base: &str, tail: &str) -> (r: String)
    ensures
        r@ == joined(base@, tail@),
{
    let x = chars_of(base);
    let y = chars_of(tail);
    if y.len() > 0 && y[0] == '/' {
        return tail.to_owned();
    }
    let n: usize = x.len();
    if n == 0 || x[n - 1] == '/' {
        return base.to_owned().concat(tail);
    }
    base.to_owned().concat("/").concat(tail)
}

proof fn lemma_segment_end(p: Seq<char>, from: int)
    requires
        0 <= from <= p.len(),
    ensures
        from <= segment_end(p, from) <= p.len(),
        forall|k: int| from <= k < segment_end(p, from) ==> p[k] != '/',
        segment_end(p, from) < p.len() ==> p[segment_end(p, from)] == '/',
    decreases p.len() - from,
{
    let rest = p.skip(from);
    if from < p.len() && p[from] != '/' {
        lemma_segment_end(p, from + 1);
        assert(rest.drop_first() == p.skip(from + 1));
    }
}

proof fn lemma_segment_end_is(p: Seq<char>, from: int, end: int)
    requires
        0 <= from <= end <= p.len(),
        forall|k: int| from <= k < end ==> p[k] != '/',
        end < p.len() ==> p[end] == '/',
    ensures
        segment_end(p, from) == end,
{
    lemma_position_of(p.skip(from), '/', end - from);
}

/// Spans follow each other, are not empty, and lie inside `p` from `from` on.
proof fn lemma_spans_ordered(p: Seq<char>, from: int)
    requires
        0 <= from,
    ensures
        forall|i: int|
            0 <= i < spans_from(p, from).len() ==> from <= (#[trigger] spans_from(p, from)[i]).0
                < spans_from(p, from)[i].1 <= p.len(),
        forall|i: int, j: int|
            0 <= i < j < spans_from(p, from).len() ==> (#[trigger] spans_from(p, from)[i]).1
                < (#[trigger] spans_from(p, from)[j]).0,
    decreases
            if from < p.len() {
                p.len() - from
            } else {
                0
            },
{
    if from < p.len() {
        reveal_strlit("");
        lemma_segment_end(p, from);
        let end = segment_end(p, from);
        lemma_spans_ordered(p, end + 1);
        let all = spans_from(p, from);
        let rest = spans_from(p, end + 1);
        if is_void(p.subrange(from, end)) {
            assert(all == rest);
        } else {
            if end == from {
                assert(p.subrange(from, end) =~= ""@);
            }
            assert(all == seq![(from, end)] + rest);
            assert(forall|i: int| 0 < i < all.len() ==> #[trigger] all[i] == rest[i - 1]);
        }
    }
}

/// Cutting `p` where a component ends splits its spans.
proof fn lemma_spans_cut(p: Seq<char>, from: int, m: int)
    requires
        0 <= from <= m <= p.len(),
        m < p.len() ==> p[m] == '/',
    ensures
        spans_from(p, from) == spans_from(p.take(m), from) + spans_from(p, m + 1),
    decreases m - from,
{
    let q = p.take(m);
    reveal_strlit("");
    if from == m {
        if m < p.len() {
            lemma_segment_end_is(p, m, m);
            assert(p.subrange(m, m) =~= ""@);
        }
        assert(spans_from(p, from) =~= spans_from(q, from) + spans_from(p, m + 1));
    } else {
        lemma_segment_end(p, from);
        let end = segment_end(p, from);
        assert(end <= m);
        assert forall|k: int| from <= k < end implies q[k] != '/' by {
            assert(q[k] == p[k]);
        }
        lemma_segment_end_is(q, from, end);
        assert(q.subrange(from, end) =~= p.subrange(from, end));
        if end < m {
            lemma_spans_cut(p, end + 1, m);
        } else {
            assert(spans_from(q, end + 1) == Seq::<(int, int)>::empty());
        }
        assert(spans_from(p, end + 1) =~= spans_from(q, end + 1) + spans_from(p, m + 1));
        assert(spans_from(p, from) =~= spans_from(q, from) + spans_from(p, m + 1));
    }
}

/// Cutting a path where a component ends splits its spans.
proof fn lemma_path_cut(p: Seq<char>, m: int)
    requires
        0 < m <= p.len(),
        m < p.len() ==> p[m] == '/',
    ensures
        spans(p) == spans(p.take(m)) + spans_from(p, m + 1),
{
    let q = p.take(m);
    reveal_strlit(".");
    lemma_segment_end(p, 0);
    let end = segment_end(p, 0);
    assert(q[0] == p[0]);
    if p[0] == '/' {
        lemma_spans_cut(p, 1, m);
        assert(spans(p) =~= spans(q) + spans_from(p, m + 1));
    } else {
        assert(end <= m);
        assert forall|k: int| 0 <= k < end implies q[k] != '/' by {
            assert(q[k] == p[k]);
        }
        lemma_segment_end_is(q, 0, end);
        assert(q.take(end) =~= p.take(end));
        if p.take(end) == "."@ {
            assert(end == 1);
            if m >= 2 {
                lemma_spans_cut(p, 2, m);
            }
            assert(spans(p) =~= spans(q) + spans_from(p, m + 1));
        } else {
            lemma_spans_cut(p, 0, m);
        }
    }
}

/// The spans of a path follow each other and lie inside it.
proof fn lemma_path_spans_ordered(p: Seq<char>)
    ensures
        forall|i: int|
            0 <= i < spans(p).len() ==> 0 <= (#[trigger] spans(p)[i]).0 < spans(p)[i].1 <= p.len(),
        forall|i: int, j: int|
            0 <= i < j < spans(p).len() ==> (#[trigger] spans(p)[i]).1 <= (
            #[trigger] spans(p)[j]).0,
{
    if p.len() > 0 {
        lemma_spans_ordered(p, 0);
        lemma_spans_ordered(p, 1);
        lemma_spans_ordered(p, 2);
    } else {
        lemma_spans_ordered(p, 0);
    }
}

proof fn lemma_span_ends(p: Seq<char>, from: int)
    requires
        0 <= from,
    ensures
        forall|i: int|
            0 <= i < spans_from(p, from).len() && (#[trigger] spans_from(p, from)[i]).1 < p.len()
                ==> p[spans_from(p, from)[i].1] == '/',
    decreases
            if from < p.len() {
                p.len() - from
            } else {
                0
            },
{
    if from < p.len() {
        lemma_segment_end(p, from);
        let end = segment_end(p, from);
        lemma_span_ends(p, end + 1);
        let all = spans_from(p, from);
        let rest = spans_from(p, end + 1);
        if !is_void(p.subrange(from, end)) {
            assert(all == seq![(from, end)] + rest);
            assert(forall|i: int| 0 < i < all.len() ==> #[trigger] all[i] == rest[i - 1]);
        } else {
            assert(all == rest);
        }
    }
}

proof fn lemma_root_spans(p: Seq<char>)
    requires
        p.len() > 0,
        p[0] == '/',
    ensures
        spans(p.take(1)) == seq![(0int, 1int)],
{
    assert(p.take(1)[0] == '/');
    assert(spans(p.take(1)) =~= seq![(0int, 1int)]);
}

/// The parent of a path has all components but the last, and is a shorter beginning of it.
pub proof fn law_parent_drops_the_last_component(p: Seq<char>)
    requires
        parent_of(p) is Some,
    ensures
        components(parent_of(p)->Some_0) == components(p).drop_last(),
        parent_of(p)->Some_0.is_prefix_of(p),
        parent_of(p)->Some_0.len() < p.len(),
{
    let s = spans(p);
    let n = s.len();
    let q = parent_of(p)->Some_0;
    lemma_path_spans_ordered(p);
    reveal_strlit("/");
    reveal_strlit(".");
    if n == 1 {
        assert(q.len() == 0);
        assert(spans_from(q, 0) == Seq::<(int, int)>::empty());
        assert(components(q) =~= components(p).drop_last());
        assert(s[0].1 <= p.len());
    } else {
        let m = s[n - 2].1;
        assert(s[n - 2].1 <= s[n - 1].0 && s[n - 1].0 < s[n - 1].1 <= p.len());
        assert(q == p.take(m));
        assert(spans(q) =~= s.drop_last()) by {
            if p[0] == '/' && n == 2 {
                lemma_root_spans(p);
                assert(s[0] == (0int, 1int));
            } else {
                lemma_span_ends(p, 0);
                lemma_span_ends(p, 1);
                lemma_span_ends(p, 2);
                if p[0] == '/' {
                    assert(s[n - 2] == spans_from(p, 1)[n - 3]);
                } else if p.take(segment_end(p, 0)) == "."@ {
                    lemma_segment_end(p, 0);
                    assert(p.take(segment_end(p, 0)).len() == 1);
                    assert(segment_end(p, 0) == 1);
                    if n > 2 {
                        assert(s[n - 2] == spans_from(p, 2)[n - 3]);
                    }
                }
                assert(p[m] == '/');
                lemma_path_cut(p, m);
                lemma_spans_ordered(p, m + 1);
                lemma_path_spans_ordered(q);
                let a = spans(q);
                let b = spans_from(p, m + 1);
                assert(s == a + b);
                if a.len() <= n - 2 {
                    assert(s[n - 2] == b[n - 2 - a.len()]);
                }
                if a.len() >= n {
                    assert(s[n - 1] == a[n - 1]);
                }
                assert(a.len() == n - 1);
            }
        }
        assert forall|i: int| 0 <= i < n - 1 implies #[trigger] components(q)[i]
            == components(p).drop_last()[i] by {
            assert(s[i].1 <= m) by {
                if i < n - 2 {
                    assert(s[i].1 <= s[n - 2].0);
                }
            }
            assert(spans(q)[i] == s[i]);
            assert(q.subrange(s[i].0, s[i].1) =~= p.subrange(s[i].0, s[i].1));
        }
        assert(components(q) =~= components(p).drop_last());
    }
}

proof fn lemma_last_name(p: Seq<char>, k: int, name: Seq<char>)
    requires
        0 <= k < p.len(),
        p.skip(k) == name,
        !name.contains('/'),
        name != "."@,
    ensures
        spans_from(p, k) == seq![(k, p.len() as int)],
{
    reveal_strlit("");
    assert forall|i: int| k <= i < p.len() implies p[i] != '/' by {
        assert(name[i - k] == p[i]);
    }
    lemma_segment_end_is(p, k, p.len() as int);
    assert(p.subrange(k, p.len() as int) =~= name);
    assert(spans_from(p, p.len() as int + 1) == Seq::<(int, int)>::empty());
    assert(spans_from(p, k) =~= seq![(k, p.len() as int)]);
}

/// Joining a name to a path adds it as the last component.
pub proof fn law_join_adds_a_component(base: Seq<char>, name: Seq<char>)
    requires
        name.len() > 0,
        !name.contains('/'),
        name != "."@,
    ensures
        components(joined(base, name)) == components(base).push(name),
{
    reveal_strlit("/");
    reveal_strlit(".");
    let p = joined(base, name);
    let n = p.len() as int;
    let k = n - name.len();
    assert(name[0] != '/') by {
        assert(name.contains(name[0]));
    }
    assert(p.skip(k) =~= name);
    lemma_last_name(p, k, name);
    assert(spans(p) =~= spans(base).push((k, n))) by {
        if base.len() == 0 {
            assert(p == name);
            lemma_segment_end(p, 0);
            assert forall|i: int| 0 <= i < p.len() implies p[i] != '/' by {
                assert(name.contains(name[i]));
            }
            lemma_segment_end_is(p, 0, n);
            assert(p.take(n) =~= name);
            assert(spans_from(base, 0) == Seq::<(int, int)>::empty());
        } else if base.len() == 1 && base[0] == '/' {
            assert(p[0] == '/');
            assert(spans_from(base, 1) == Seq::<(int, int)>::empty());
        } else {
            let m = k - 1;
            assert(p[m] == '/');
            lemma_path_cut(p, m);
            if base.last() == '/' {
                lemma_path_cut(base, m);
                assert(p.take(m) =~= base.take(m));
                assert(spans_from(base, m + 1) == Seq::<(int, int)>::empty());
                assert(spans(base) =~= spans(base.take(m)));
            } else {
                assert(p.take(m) =~= base);
            }
        }
    }
    lemma_path_spans_ordered(base);
    assert forall|i: int| 0 <= i < components(p).len() implies #[trigger] components(p)[i]
        == components(base).push(name)[i] by {
        if i < components(base).len() {
            let s = spans(base)[i];
            assert(spans(p)[i] == s);
            assert(p.subrange(s.0, s.1) =~= base.subrange(s.0, s.1));
        } else {
            assert(p.subrange(k, n) =~= name);
        }
    }
    assert(components(p) =~= components(base).push(name));
}

/// Whether `s` names something in a directory: it is not empty, holds no slash, and is not the
/// dot that stands for the directory itself.
pub open spec fn is_name(s: Seq<char>) -> bool {
    s.len() > 0 && !s.contains('/') && s != seq!['.']
}

proof fn lemma_literals()
    ensures
        ""@ == Seq::<char>::empty(),
        "."@ == seq!['.'],
        "/"@ == seq!['/'],
        ".."@ == seq!['.', '.'],
{
    reveal_strlit("");
    reveal_strlit(".");
    reveal_strlit("/");
    reveal_strlit("..");
    assert(""@ =~= Seq::<char>::empty());
    assert("."@ =~= seq!['.']);
    assert("/"@ =~= seq!['/']);
    assert(".."@ =~= seq!['.', '.']);
}

proof fn lemma_same_spans(p: Seq<char>, q: Seq<char>)
    requires
        spans(p) == spans(q),
        q.is_prefix_of(p),
    ensures
        components(p) == components(q),
{
    lemma_path_spans_ordered(q);
    assert forall|i: int| 0 <= i < components(p).len() implies #[trigger] components(p)[i]
        == components(q)[i] by {
        let t = spans(q)[i];
        assert(p.subrange(t.0, t.1) =~= q.subrange(t.0, t.1));
    }
    assert(components(p) =~= components(q));
}

proof fn lemma_single(p: Seq<char>)
    requires
        p.len() > 0,
        !p.contains('/'),
    ensures
        spans(p) == seq![(0int, p.len() as int)],
{
    lemma_literals();
    let n = p.len() as int;
    assert forall|i: int| 0 <= i < n implies p[i] != '/' by {
        assert(p.contains(p[i]));
    }
    lemma_segment_end_is(p, 0, n);
    assert(p.take(n) =~= p);
    assert(p.subrange(0, n) =~= p);
    assert(spans_from(p, n + 1) == Seq::<(int, int)>::empty());
    if p == seq!['.'] {
        assert(spans_from(p, 2) == Seq::<(int, int)>::empty());
    }
    assert(spans(p) =~= seq![(0int, n)]);
}

proof fn lemma_spans_below(p: Seq<char>, name: Seq<char>)
    requires
        is_name(name),
    ensures
        p.len() > 0 ==> spans(p + seq!['/'] + name) == spans(p).push(
            ((p.len() + 1) as int, (p.len() + 1 + name.len()) as int),
        ),
        p.len() == 0 ==> spans(p + seq!['/'] + name) == seq![
            (0int, 1int),
            (1int, (1 + name.len()) as int),
        ],
{
    lemma_literals();
    let q = p + seq!['/'] + name;
    let m = p.len() as int;
    assert(q.skip(m + 1) =~= name);
    lemma_last_name(q, m + 1, name);
    assert(q[m] == '/');
    if m > 0 {
        lemma_path_cut(q, m);
        assert(q.take(m) =~= p);
        assert(spans(q) =~= spans(p).push((m + 1, q.len() as int)));
    } else {
        assert(spans(q) =~= seq![(0int, 1int), (1int, q.len() as int)]);
    }
}

proof fn lemma_spans_void(p: Seq<char>)
    requires
        p.len() > 0,
    ensures
        spans(p + seq!['/']) == spans(p),
        spans(p + seq!['/', '.']) == spans(p),
{
    lemma_literals();
    let m = p.len() as int;
    let q = p + seq!['/'];
    lemma_path_cut(q, m);
    assert(q.take(m) =~= p);
    assert(spans_from(q, m + 1) == Seq::<(int, int)>::empty());
    assert(spans(q) =~= spans(p));
    let r = p + seq!['/', '.'];
    assert(r[m] == '/' && r[m + 1] == '.');
    lemma_path_cut(r, m);
    assert(r.take(m) =~= p);
    lemma_segment_end_is(r, m + 1, m + 2);
    assert(r.subrange(m + 1, m + 2) =~= seq!['.']);
    assert(spans_from(r, m + 3) == Seq::<(int, int)>::empty());
    assert(spans(r) =~= spans(p));
}

/// The components of paths without a slash, and of the root.
pub proof fn law_components_of_single_names(name: Seq<char>)
    requires
        is_name(name),
    ensures
        components(name) == seq![name],
        components(seq!['/'] + name) == seq![seq!['/'], name],
        components(seq!['/']) == seq![seq!['/']],
        components(seq!['.']) == seq![seq!['.']],
        components(Seq::<char>::empty()) == Seq::<Seq<char>>::empty(),
{
    let root = seq!['/'];
    let dot = seq!['.'];
    let e = Seq::<char>::empty();
    lemma_single(name);
    assert(name.subrange(0, name.len() as int) =~= name);
    assert(components(name) =~= seq![name]);
    lemma_single(dot);
    assert(dot.subrange(0, 1) =~= dot);
    assert(components(dot) =~= seq![dot]);
    assert(root.take(1) =~= root);
    lemma_root_spans(root);
    assert(root.subrange(0, 1) =~= root);
    assert(components(root) =~= seq![root]);
    assert(e + root + name =~= root + name);
    lemma_spans_below(e, name);
    let p = root + name;
    assert(p.subrange(0, 1) =~= root);
    assert(p.subrange(1, p.len() as int) =~= name);
    assert(components(p) =~= seq![root, name]);
    assert(components(e) =~= Seq::<Seq<char>>::empty());
}

/// A name below a path is one more component; a slash at the end, or a dot after it, is none.
pub proof fn law_components_of_longer_paths(p: Seq<char>, name: Seq<char>)
    requires
        p.len() > 0,
        is_name(name),
    ensures
        components(p + seq!['/'] + name) == components(p).push(name),
        components(p + seq!['/']) == components(p),
        components(p + seq!['/', '.']) == components(p),
{
    let q = p + seq!['/'] + name;
    lemma_spans_below(p, name);
    lemma_path_spans_ordered(p);
    assert forall|i: int| 0 <= i < components(q).len() implies #[trigger] components(q)[i]
        == components(p).push(name)[i] by {
        if i < components(p).len() {
            let t = spans(p)[i];
            assert(spans(q)[i] == t);
            assert(q.subrange(t.0, t.1) =~= p.subrange(t.0, t.1));
        } else {
            assert(q.subrange((p.len() + 1) as int, q.len() as int) =~= name);
        }
    }
    assert(components(q) =~= components(p).push(name));
    lemma_spans_void(p);
    lemma_same_spans(p + seq!['/'], p);
    lemma_same_spans(p + seq!['/', '.'], p);
}

proof fn lemma_not_root(p: Seq<char>, name: Seq<char>)
    requires
        components(p).len() > 0,
        components(p).last() == name,
        !name.contains('/'),
    ensures
        components(p).last() != "/"@,
{
    lemma_literals();
    if name == "/"@ {
        assert(name[0] == '/');
        assert(name.contains('/'));
    }
}

proof fn lemma_parent_below(p: Seq<char>, name: Seq<char>)
    requires
        p.len() > 0,
        is_name(name),
    ensures
        spans(p).len() > 0 ==> parent_of(p + seq!['/'] + name) == Some(p.take(spans(p).last().1)),
{
    if spans(p).len() > 0 {
        let q = p + seq!['/'] + name;
        lemma_spans_below(p, name);
        lemma_path_spans_ordered(p);
        law_components_of_longer_paths(p, name);
        lemma_not_root(q, name);
        let m = spans(p).last().1;
        assert(spans(q)[spans(q).len() - 2] == spans(p).last());
        assert(q.take(m) =~= p.take(m));
    }
}

/// The parent of a single name is the empty path, that of a name in the root is the root, and the
/// root and the empty path have none.
pub proof fn law_parents_of_single_names(name: Seq<char>)
    requires
        is_name(name),
    ensures
        parent_of(name) == Some(Seq::<char>::empty()),
        parent_of(seq!['/'] + name) == Some(seq!['/']),
        parent_of(seq!['/']) is None,
        parent_of(Seq::<char>::empty()) is None,
        parent_of(seq!['.']) == Some(Seq::<char>::empty()),
{
    let e = Seq::<char>::empty();
    let root = seq!['/'];
    lemma_literals();
    law_components_of_single_names(name);
    lemma_single(name);
    lemma_not_root(name, name);
    assert(e + root + name =~= root + name);
    lemma_spans_below(e, name);
    lemma_not_root(root + name, name);
    assert((root + name).take(1) =~= root);
    lemma_single(seq!['.']);
    assert(seq!['.'] != seq!['/']) by {
        assert(seq!['.'][0] != seq!['/'][0]);
    }
}

/// The parent of a name below a directory is the directory, as it is written: a name, a name
/// below any path, the root, or the dot.
pub proof fn law_parents_are_written_as_they_were(
    above: Seq<char>,
    directory: Seq<char>,
    name: Seq<char>,
)
    requires
        is_name(directory),
        is_name(name),
    ensures
        parent_of(directory + seq!['/'] + name) == Some(directory),
        parent_of(above + seq!['/'] + directory + seq!['/'] + name) == Some(
            above + seq!['/'] + directory,
        ),
        parent_of(seq!['/'] + seq!['/'] + name) == Some(seq!['/']),
        parent_of(seq!['.'] + seq!['/'] + name) == Some(seq!['.']),
{
    let root = seq!['/'];
    let dot = seq!['.'];
    lemma_single(directory);
    lemma_parent_below(directory, name);
    assert(directory.take(directory.len() as int) =~= directory);
    let q = above + seq!['/'] + directory;
    lemma_spans_below(above, directory);
    lemma_parent_below(q, name);
    assert(q.take(q.len() as int) =~= q);
    assert(root.take(1) =~= root);
    lemma_root_spans(root);
    lemma_parent_below(root, name);
    lemma_single(dot);
    lemma_parent_below(dot, name);
    assert(dot.take(1) =~= dot);
}

/// Slashes and dots that add no component change no parent: at the end of a path, and before its
/// last name.
pub proof fn law_parents_pass_over_slashes_and_dots(p: Seq<char>, name: Seq<char>)
    requires
        p.len() > 0,
        is_name(name),
    ensures
        parent_of(p + seq!['/']) == parent_of(p),
        parent_of(p + seq!['/', '.']) == parent_of(p),
        parent_of(p + seq!['/'] + seq!['/'] + name) == parent_of(p + seq!['/'] + name),
        parent_of(p + seq!['/', '.'] + seq!['/'] + name) == parent_of(p + seq!['/'] + name),
{
    lemma_spans_void(p);
    law_components_of_longer_paths(p, name);
    lemma_path_spans_ordered(p);
    let a = p + seq!['/'];
    let b = p + seq!['/', '.'];
    if spans(p).len() > 1 {
        let m = spans(p)[spans(p).len() - 2].1;
        assert(a.take(m) =~= p.take(m));
        assert(b.take(m) =~= p.take(m));
    }
    lemma_some_span(p);
    lemma_parent_below(p, name);
    lemma_parent_below(a, name);
    lemma_parent_below(b, name);
    let m = spans(p).last().1;
    assert(a.take(m) =~= p.take(m));
    assert(b.take(m) =~= p.take(m));
}

proof fn lemma_some_span(p: Seq<char>)
    requires
        p.len() > 0,
    ensures
        spans(p).len() > 0,
{
    lemma_literals();
    lemma_segment_end(p, 0);
    let end = segment_end(p, 0);
    if p[0] != '/' {
        assert(end > 0);
        assert(p.subrange(0, end) =~= p.take(end));
        if p.take(end) != seq!['.'] {
            assert(p.take(end).len() == end);
            assert(p.subrange(0, end) != ""@);
            assert(!is_void(p.subrange(0, end)));
        }
    }
}

/// A path has no parent only where it has no component but the root.
pub proof fn law_paths_without_a_parent(p: Seq<char>)
    ensures
        parent_of(p) is None <==> components(p).len() == 0 || components(p).last() == seq!['/'],
{
    lemma_literals();
}

proof fn lemma_last_dot(stem: Seq<char>, ext: Seq<char>)
    requires
        !ext.contains('.'),
    ensures
        last_dot(stem + seq!['.'] + ext) == stem.len(),
    decreases ext.len(),
{
    let s = stem + seq!['.'] + ext;
    if ext.len() > 0 {
        assert(ext.contains(ext.last()));
        assert(s.last() == ext.last());
        assert(s.drop_last() =~= stem + seq!['.'] + ext.drop_last());
        assert(!ext.drop_last().contains('.')) by {
            if ext.drop_last().contains('.') {
                let i = choose|i: int| 0 <= i < ext.drop_last().len() && ext.drop_last()[i] == '.';
                assert(ext[i] == '.');
            }
        }
        lemma_last_dot(stem, ext.drop_last());
    } else {
        assert(s.last() == '.');
    }
}

proof fn lemma_no_dot(s: Seq<char>)
    requires
        !s.contains('.'),
    ensures
        last_dot(s) == -1,
    decreases s.len(),
{
    if s.len() > 0 {
        assert(s.contains(s.last()));
        assert(!s.drop_last().contains('.')) by {
            if s.drop_last().contains('.') {
                let i = choose|i: int| 0 <= i < s.drop_last().len() && s.drop_last()[i] == '.';
                assert(s[i] == '.');
            }
        }
        lemma_no_dot(s.drop_last());
    }
}

/// The extension of a file is what stands after the last dot of its name, unless that dot begins
/// the name; a name without a dot has none. It does not depend on the directory.
pub proof fn law_extensions(above: Seq<char>, stem: Seq<char>, ext: Seq<char>)
    requires
        !stem.contains('/'),
        !ext.contains('/'),
        !ext.contains('.'),
        stem.len() > 0,
        stem != seq!['.'],
    ensures
        extension_of(stem + seq!['.'] + ext) == Some(ext),
        extension_of(above + seq!['/'] + (stem + seq!['.'] + ext)) == Some(ext),
        ext.len() > 0 ==> extension_of(ext) is None,
        ext.len() > 0 ==> extension_of(above + seq!['/'] + ext) is None,
        ext.len() > 0 ==> extension_of(seq!['.'] + ext) is None,
        ext.len() > 0 ==> extension_of(above + seq!['/'] + (seq!['.'] + ext)) is None,
{
    lemma_literals();
    let name = stem + seq!['.'] + ext;
    assert(!name.contains('/')) by {
        if name.contains('/') {
            let i = choose|i: int| 0 <= i < name.len() && name[i] == '/';
            if i < stem.len() {
                assert(stem[i] == '/');
            } else if i > stem.len() {
                assert(ext[i - stem.len() - 1] == '/');
            }
        }
    }
    assert(name.len() >= 2);
    assert(name != seq!['.', '.']) by {
        if name == seq!['.', '.'] {
            assert(ext.len() == 0 || ext[0] == name[stem.len() as int + 1]);
            if ext.len() > 0 {
                assert(ext.contains(ext[0]));
                assert(ext[0] == '.');
            }
            assert(stem.len() == 1);
            assert(stem[0] == name[0]);
            assert(stem =~= seq!['.']);
        }
    }
    lemma_last_dot(stem, ext);
    assert(name.skip(stem.len() as int + 1) =~= ext);
    lemma_name_of(above, name);
    if ext.len() > 0 {
        assert(ext.contains(ext[0]));
        assert(ext != seq!['.', '.'] && ext != seq!['.']) by {
            assert(ext[0] != '.');
        }
        lemma_no_dot(ext);
        lemma_name_of(above, ext);
        let hidden = seq!['.'] + ext;
        assert(hidden =~= Seq::<char>::empty() + seq!['.'] + ext);
        lemma_last_dot(Seq::<char>::empty(), ext);
        assert(hidden[1] == ext[0]);
        assert(!hidden.contains('/')) by {
            if hidden.contains('/') {
                let i = choose|i: int| 0 <= i < hidden.len() && hidden[i] == '/';
                assert(ext[i - 1] == '/');
            }
        }
        assert(hidden != seq!['.', '.']);
        lemma_name_of(above, hidden);
    }
}

proof fn lemma_name_of(above: Seq<char>, name: Seq<char>)
    requires
        is_name(name),
        name != seq!['.', '.'],
    ensures
        file_name_of(name) == Some(name),
        file_name_of(above + seq!['/'] + name) == Some(name),
{
    lemma_literals();
    law_components_of_single_names(name);
    let q = above + seq!['/'] + name;
    if above.len() > 0 {
        law_components_of_longer_paths(above, name);
    } else {
        assert(q =~= seq!['/'] + name);
    }
    lemma_not_root(name, name);
    lemma_not_root(q, name);
}

/// Paths with the same components have the same extension; the root, the directory itself and
/// the one above have none.
pub proof fn law_extensions_depend_on_components(p: Seq<char>, q: Seq<char>)
    requires
        components(p) == components(q),
    ensures
        extension_of(p) == extension_of(q),
        components(p).len() == 0 || components(p).last() == seq!['/'] || components(p).last()
            == seq!['.'] || components(p).last() == seq!['.', '.'] ==> extension_of(p) is None,
{
    lemma_literals();
}

/// How a path is written below another: as it is where it is absolute, else after one slash.
pub proof fn law_joining_writes_one_slash(base: Seq<char>, tail: Seq<char>)
    ensures
        tail.len() > 0 && tail[0] == '/' ==> joined(base, tail) == tail,
        !(tail.len() > 0 && tail[0] == '/') && base.len() > 0 && base.last() != '/' ==> joined(
            base,
            tail,
        ) == base + seq!['/'] + tail,
        !(tail.len() > 0 && tail[0] == '/') && (base.len() == 0 || base.last() == '/') ==> joined(
            base,
            tail,
        ) == base + tail,
{
    lemma_literals();
}

} // verus!
