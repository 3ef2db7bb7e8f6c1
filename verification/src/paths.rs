//! Paths: file system paths as their raw bytes, taken apart into components.
//!
//! A path is a byte string with `/` as its separator. Its components leave out
//! what does not change the place it names: repeated and trailing separators, and
//! every `.` but one that a relative path starts with.

use vstd::prelude::*;
use vstd::slice::{slice_subrange, slice_to_vec};
use vstd::utf8::{encode_scalar, encode_utf8};

verus! {

pub const SEPARATOR: u8 = 47;

pub const DOT: u8 = 46;

/// The contents of a list of byte strings.
pub open spec fn byte_texts(list: Seq<Vec<u8>>) -> Seq<Seq<u8>> {
    list.map_values(|v: Vec<u8>| v@)
}

/// The contents of an optional path.
pub open spec fn opt_path(p: Option<Vec<u8>>) -> Option<Seq<u8>> {
    match p {
        Some(v) => Some(v@),
        None => None,
    }
}

/// The length of the part of `s` in front of its first separator.
pub open spec fn segment_len(s: Seq<u8>) -> nat
    decreases s.len(),
{
    if s.len() == 0 || s[0] == SEPARATOR {
        0
    } else {
        1 + segment_len(s.skip(1))
    }
}

/// The part of `s` behind its first separator.
pub open spec fn after_segment(s: Seq<u8>) -> Seq<u8> {
    if segment_len(s) < s.len() {
        s.skip(segment_len(s) as int + 1)
    } else {
        seq![]
    }
}

/// The length of the part of `s` behind its last separator.
pub open spec fn last_segment_len(s: Seq<u8>) -> nat
    decreases s.len(),
{
    if s.len() == 0 || s.last() == SEPARATOR {
        0
    } else {
        1 + last_segment_len(s.drop_last())
    }
}

/// The part of `s` in front of its last separator.
pub open spec fn before_last_segment(s: Seq<u8>) -> Seq<u8> {
    if last_segment_len(s) < s.len() {
        s.take(s.len() - last_segment_len(s) - 1)
    } else {
        seq![]
    }
}

/// Whether a part between separators names no component: it is empty or `.`.
pub open spec fn is_void(part: Seq<u8>) -> bool {
    part.len() == 0 || (part.len() == 1 && part[0] == DOT)
}

/// The components of a path behind its root or leading `.`.
pub open spec fn body(s: Seq<u8>) -> Seq<Seq<u8>>
    decreases s.len(),
{
    if s.len() == 0 {
        seq![]
    } else {
        let first = s.take(segment_len(s) as int);
        if is_void(first) {
            body(after_segment(s))
        } else {
            seq![first] + body(after_segment(s))
        }
    }
}

/// Whether the path starts at the root.
pub open spec fn is_absolute(p: Seq<u8>) -> bool {
    p.len() > 0 && p[0] == SEPARATOR
}

/// Whether the path is `.` or starts with `./`.
pub open spec fn starts_at_dot(p: Seq<u8>) -> bool {
    p.len() > 0 && p[0] == DOT && (p.len() == 1 || p[1] == SEPARATOR)
}

/// The length of the root or of the leading `.`: 1, or 0 for a path with neither.
pub open spec fn lead_len(p: Seq<u8>) -> int {
    if is_absolute(p) || starts_at_dot(p) {
        1
    } else {
        0
    }
}

/// The components of a path; the root is the component `/`.
pub open spec fn components(p: Seq<u8>) -> Seq<Seq<u8>> {
    if lead_len(p) == 1 {
        seq![p.take(1)] + body(p.skip(1))
    } else {
        body(p)
    }
}

/// Whether the components of `p` start with those of `base`.
pub open spec fn lies_under(p: Seq<u8>, base: Seq<u8>) -> bool {
    components(base).is_prefix_of(components(p))
}

/// `rel` taken from the directory `base`; an absolute `rel` stands for itself.
pub open spec fn join(base: Seq<u8>, rel: Seq<u8>) -> Seq<u8> {
    if is_absolute(rel) {
        rel
    } else if base.len() == 0 || base.last() == SEPARATOR {
        base + rel
    } else {
        base.push(SEPARATOR) + rel
    }
}

/// `s` from its first component on.
pub open spec fn trim_front(s: Seq<u8>) -> Seq<u8>
    decreases s.len(),
{
    if s.len() > 0 && is_void(s.take(segment_len(s) as int)) {
        trim_front(after_segment(s))
    } else {
        s
    }
}

/// `s` up to the end of its last component.
pub open spec fn trim_back(s: Seq<u8>) -> Seq<u8>
    decreases s.len(),
{
    if s.len() > 0 && is_void(s.skip(s.len() - last_segment_len(s))) {
        trim_back(before_last_segment(s))
    } else {
        s
    }
}

/// `s` behind its first `n` components.
pub open spec fn drop_components(s: Seq<u8>, n: nat) -> Seq<u8>
    decreases s.len(),
{
    if n == 0 || s.len() == 0 {
        s
    } else if is_void(s.take(segment_len(s) as int)) {
        drop_components(after_segment(s), n)
    } else {
        drop_components(after_segment(s), (n - 1) as nat)
    }
}

/// What is left of `p` behind its first `n` components.
pub open spec fn remainder(p: Seq<u8>, n: nat) -> Seq<u8> {
    let lead = lead_len(p);
    if n == 0 {
        p.take(lead) + trim_back(p.skip(lead))
    } else {
        trim_back(trim_front(drop_components(p.skip(lead), (n - lead) as nat)))
    }
}

/// `p` as seen from the directory `base`, where it lies under that.
pub open spec fn relative_to(p: Seq<u8>, base: Seq<u8>) -> Option<Seq<u8>> {
    if lies_under(p, base) {
        Some(remainder(p, components(base).len()))
    } else {
        None
    }
}

pub proof fn lemma_segment_len(s: Seq<u8>)
    ensures
        segment_len(s) <= s.len(),
        forall|i: int| 0 <= i < segment_len(s) ==> #[trigger] s[i] != SEPARATOR,
        segment_len(s) < s.len() ==> s[segment_len(s) as int] == SEPARATOR,
    decreases s.len(),
{
    if s.len() == 0 || s[0] == SEPARATOR {
    } else {
        lemma_segment_len(s.skip(1));
        assert forall|i: int| 0 <= i < segment_len(s) implies #[trigger] s[i] != SEPARATOR by {
            if i > 0 {
                assert(s[i] == s.skip(1)[i - 1]);
            }
        }
    }
}

/// `segment_len` is the only length with its two properties.
pub proof fn lemma_segment_len_is(s: Seq<u8>, n: nat)
    requires
        n <= s.len(),
        forall|i: int| 0 <= i < n ==> #[trigger] s[i] != SEPARATOR,
        n < s.len() ==> s[n as int] == SEPARATOR,
    ensures
        segment_len(s) == n,
{
    lemma_segment_len(s);
    let m = segment_len(s);
    if m < n {
        assert(s[m as int] != SEPARATOR);
    }
    if n < m {
        assert(s[n as int] != SEPARATOR);
    }
}

pub proof fn lemma_last_segment_len(s: Seq<u8>)
    ensures
        last_segment_len(s) <= s.len(),
        forall|i: int| s.len() - last_segment_len(s) <= i < s.len() ==> #[trigger] s[i] != SEPARATOR,
        last_segment_len(s) < s.len() ==> s[s.len() - last_segment_len(s) - 1] == SEPARATOR,
    decreases s.len(),
{
    if s.len() == 0 || s.last() == SEPARATOR {
    } else {
        lemma_last_segment_len(s.drop_last());
        assert forall|i: int| s.len() - last_segment_len(s) <= i < s.len() implies #[trigger] s[i]
            != SEPARATOR by {
            if i < s.len() - 1 {
                assert(s[i] == s.drop_last()[i]);
            }
        }
    }
}

pub proof fn lemma_last_segment_len_is(s: Seq<u8>, n: nat)
    requires
        n <= s.len(),
        forall|i: int| s.len() - n <= i < s.len() ==> #[trigger] s[i] != SEPARATOR,
        n < s.len() ==> s[s.len() - n - 1] == SEPARATOR,
    ensures
        last_segment_len(s) == n,
{
    lemma_last_segment_len(s);
    let m = last_segment_len(s);
    if m < n {
        assert(s[s.len() - m - 1] != SEPARATOR);
    }
    if n < m {
        assert(s[s.len() - n - 1] != SEPARATOR);
    }
}

/// Where the part of `p` that starts at `i` ends.
fn segment_end(p: &[u8], i: usize) -> (end: usize)
    requires
        i <= p@.len(),
    ensures
        i <= end <= p@.len(),
        end - i == segment_len(p@.skip(i as int)),
{
    let ghost rest = p@.skip(i as int);
    let mut end: usize = i;
    while end < p.len() && p[end] != SEPARATOR
        invariant
            i <= end <= p@.len(),
            rest == p@.skip(i as int),
            forall|k: int| 0 <= k < end - i ==> #[trigger] rest[k] != SEPARATOR,
        decreases p@.len() - end,
    {
        assert(rest[end - i] == p@[end as int]);
        end = end + 1;
    }
    proof {
        if end < p@.len() {
            assert(rest[end - i] == p@[end as int]);
        }
        lemma_segment_len_is(rest, (end - i) as nat);
    }
    end
}

fn void(p: &[u8], i: usize, end: usize) -> (r: bool)
    requires
        i <= end <= p@.len(),
    ensures
        r == is_void(p@.subrange(i as int, end as int)),
{
    i == end || (end - i == 1 && p[i] == DOT)
}

/// Where the path behind its root or leading `.` starts.
fn lead(p: &[u8]) -> (r: usize)
    ensures
        r == lead_len(p@),
        r <= p@.len(),
{
    if p.len() > 0 && (p[0] == SEPARATOR || (p[0] == DOT && (p.len() == 1 || p[1] == SEPARATOR))) {
        1
    } else {
        0
    }
}

/// A copy of the bytes from `i` to `end`.
pub fn copy_range(p: &[u8], i: usize, end: usize) -> (r: Vec<u8>)
    requires
        i <= end <= p@.len(),
    ensures
        r@ == p@.subrange(i as int, end as int),
{
    slice_to_vec(slice_subrange(p, i, end))
}

/// The components of a path.
pub fn split_components(p: &[u8]) -> (out: Vec<Vec<u8>>)
    ensures
        byte_texts(out@) == components(p@),
{
    let mut out: Vec<Vec<u8>> = Vec::new();
    let start = lead(p);
    assert(byte_texts(out@) == Seq::<Seq<u8>>::empty());
    if start == 1 {
        let root = copy_range(p, 0, 1);
        out.push(root);
        assert(p@.take(1) == p@.subrange(0, 1));
        assert(byte_texts(out@) == seq![p@.take(1)]);
    }
    let ghost front = byte_texts(out@);
    let mut i: usize = start;
    proof {
        if start == 0 {
            assert(p@.skip(0) == p@);
            assert(front + body(p@) == body(p@));
        }
    }
    while i < p.len()
        invariant
            i <= p@.len(),
            byte_texts(out@) + body(p@.skip(i as int)) == components(p@),
        decreases p@.len() - i,
    {
        let end = segment_end(p, i);
        let ghost rest = p@.skip(i as int);
        let ghost before = byte_texts(out@);
        let ghost part = p@.subrange(i as int, end as int);
        assert(rest.take(end - i) == p@.subrange(i as int, end as int));
        if !void(p, i, end) {
            out.push(copy_range(p, i, end));
            assert(byte_texts(out@) == before.push(part));
        }
        if end < p.len() {
            i = end + 1;
            assert(after_segment(rest) == p@.skip(i as int));
        } else {
            i = end;
            assert(after_segment(rest) == p@.skip(i as int));
        }
        proof {
            let tail = body(p@.skip(i as int));
            if is_void(part) {
                assert(body(rest) == tail);
            } else {
                assert(body(rest) == seq![part] + tail);
                assert(before + (seq![part] + tail) == before.push(part) + tail);
            }
        }
    }
    assert(body(p@.skip(i as int)) == Seq::<Seq<u8>>::empty());
    assert(byte_texts(out@) + Seq::<Seq<u8>>::empty() == byte_texts(out@));
    out
}

/// Whether two byte strings are the same.
pub fn same_bytes(a: &[u8], b: &[u8]) -> (r: bool)
    ensures
        r == (a@ == b@),
{
    if a.len() != b.len() {
        return false;
    }
    for i in 0..a.len()
        invariant
            a@.len() == b@.len(),
            forall|k: int| 0 <= k < i ==> #[trigger] a@[k] == b@[k],
    {
        if a[i] != b[i] {
            return false;
        }
    }
    assert(a@ == b@);
    true
}

/// Whether the components of `p` start with those of `base`.
pub fn is_under(p: &[u8], base: &[u8]) -> (r: bool)
    ensures
        r == lies_under(p@, base@),
{
    let whole = split_components(p);
    let front = split_components(base);
    let ghost w = components(p@);
    let ghost f = components(base@);
    if front.len() > whole.len() {
        return false;
    }
    for i in 0..front.len()
        invariant
            byte_texts(whole@) == w,
            byte_texts(front@) == f,
            f.len() <= w.len(),
            f.len() == front@.len(),
            w.len() == whole@.len(),
            w == components(p@),
            f == components(base@),
            forall|k: int| 0 <= k < i ==> #[trigger] f[k] == w[k],
    {
        assert(whole@[i as int]@ == w[i as int]);
        assert(front@[i as int]@ == f[i as int]);
        if !same_bytes(whole[i].as_slice(), front[i].as_slice()) {
            assert(w.subrange(0, f.len() as int)[i as int] != f[i as int]);
            return false;
        }
    }
    assert(f == w.subrange(0, f.len() as int));
    true
}

/// Whether the path starts at the root.
pub fn absolute(p: &[u8]) -> (r: bool)
    ensures
        r == is_absolute(p@),
{
    p.len() > 0 && p[0] == SEPARATOR
}

/// Appends a byte string to another.
pub fn append_bytes(out: &mut Vec<u8>, more: &[u8])
    ensures
        final(out)@ == old(out)@ + more@,
{
    out.extend_from_slice(more);
    assert(out@ == old(out)@ + more@);
}

/// `rel` taken from the directory `base`.
pub fn join_path(base: &[u8], rel: &[u8]) -> (out: Vec<u8>)
    ensures
        out@ == join(base@, rel@),
{
    if absolute(rel) {
        return slice_to_vec(rel);
    }
    let mut out: Vec<u8> = slice_to_vec(base);
    if base.len() > 0 && base[base.len() - 1] != SEPARATOR {
        out.push(SEPARATOR);
    }
    append_bytes(&mut out, rel);
    out
}

/// Where `p` from `i` on, behind its first `n` components, starts.
fn skip_components(p: &[u8], i: usize, n: usize) -> (at: usize)
    requires
        i <= p@.len(),
    ensures
        i <= at <= p@.len(),
        p@.skip(at as int) == drop_components(p@.skip(i as int), n as nat),
{
    let mut at: usize = i;
    let mut left: usize = n;
    while left > 0 && at < p.len()
        invariant
            i <= at <= p@.len(),
            drop_components(p@.skip(at as int), left as nat) == drop_components(
                p@.skip(i as int),
                n as nat,
            ),
        decreases p@.len() - at,
    {
        let end = segment_end(p, at);
        let ghost rest = p@.skip(at as int);
        assert(rest.take(end - at) == p@.subrange(at as int, end as int));
        if !void(p, at, end) {
            left = left - 1;
        }
        at = if end < p.len() {
            end + 1
        } else {
            end
        };
        assert(after_segment(rest) == p@.skip(at as int));
    }
    at
}

/// Where the first component of `p` from `i` on starts.
fn skip_voids(p: &[u8], i: usize) -> (at: usize)
    requires
        i <= p@.len(),
    ensures
        i <= at <= p@.len(),
        p@.skip(at as int) == trim_front(p@.skip(i as int)),
{
    let mut at: usize = i;
    while at < p.len()
        invariant_except_break
            trim_front(p@.skip(at as int)) == trim_front(p@.skip(i as int)),
        invariant
            i <= at <= p@.len(),
        ensures
            p@.skip(at as int) == trim_front(p@.skip(i as int)),
        decreases p@.len() - at,
    {
        let end = segment_end(p, at);
        let ghost rest = p@.skip(at as int);
        assert(rest.take(end - at) == p@.subrange(at as int, end as int));
        if !void(p, at, end) {
            break;
        }
        at = if end < p.len() {
            end + 1
        } else {
            end
        };
        assert(after_segment(rest) == p@.skip(at as int));
    }
    at
}

/// Where the last component of `p` from `i` on ends.
fn trim_end(p: &[u8], i: usize) -> (end: usize)
    requires
        i <= p@.len(),
    ensures
        i <= end <= p@.len(),
        p@.subrange(i as int, end as int) == trim_back(p@.skip(i as int)),
{
    let mut end: usize = p.len();
    assert(p@.subrange(i as int, end as int) == p@.skip(i as int));
    while end > i
        invariant_except_break
            trim_back(p@.subrange(i as int, end as int)) == trim_back(p@.skip(i as int)),
        invariant
            i <= end <= p@.len(),
        ensures
            p@.subrange(i as int, end as int) == trim_back(p@.skip(i as int)),
        decreases end - i,
    {
        let ghost s = p@.subrange(i as int, end as int);
        let mut from: usize = end;
        while from > i && p[from - 1] != SEPARATOR
            invariant
                i <= from <= end <= p@.len(),
                s == p@.subrange(i as int, end as int),
                forall|k: int| from - i <= k < s.len() ==> #[trigger] s[k] != SEPARATOR,
            decreases from - i,
        {
            assert(s[from - 1 - i] == p@[from - 1]);
            from = from - 1;
        }
        proof {
            if from > i {
                assert(s[from - i - 1] == p@[from - 1]);
            }
            lemma_last_segment_len_is(s, (end - from) as nat);
            assert(s.skip(s.len() - (end - from)) == p@.subrange(from as int, end as int));
        }
        if !void(p, from, end) {
            break;
        }
        end = if from > i {
            from - 1
        } else {
            i
        };
        assert(before_last_segment(s) == p@.subrange(i as int, end as int));
    }
    end
}

/// `p` as seen from the directory `base`, where it lies under that.
pub fn strip_base(p: &[u8], base: &[u8]) -> (out: Option<Vec<u8>>)
    ensures
        opt_path(out) == relative_to(p@, base@),
{
    if !is_under(p, base) {
        return None;
    }
    let n: usize = split_components(base).len();
    let start = lead(p);
    assert(n == components(base@).len());
    if n == 0 {
        let end = trim_end(p, start);
        let out = copy_range(p, 0, end);
        assert(out@ == p@.take(start as int) + p@.subrange(start as int, end as int));
        return Some(out);
    }
    let behind = skip_components(p, start, n - start);
    let from = skip_voids(p, behind);
    let end = trim_end(p, from);
    Some(copy_range(p, from, end))
}

proof fn lemma_body_concat(a: Seq<u8>, b: Seq<u8>)
    ensures
        body(a.push(SEPARATOR) + b) == body(a) + body(b),
    decreases a.len(),
{
    let s = a.push(SEPARATOR) + b;
    let n = segment_len(a) as int;
    lemma_segment_len(a);
    assert forall|i: int| 0 <= i < n implies #[trigger] s[i] != SEPARATOR by {
        assert(s[i] == a[i]);
    }
    assert(s[n] == SEPARATOR);
    lemma_segment_len_is(s, n as nat);
    assert(s.take(n) == a.take(n));
    if n < a.len() {
        let rest = a.skip(n + 1);
        assert(after_segment(s) == rest.push(SEPARATOR) + b);
        lemma_body_concat(rest, b);
        assert(body(a) == if is_void(a.take(n)) { body(rest) } else { seq![a.take(n)] + body(rest) });
        assert((seq![a.take(n)] + body(rest)) + body(b) == seq![a.take(n)] + (body(rest) + body(b)));
    } else {
        assert(after_segment(s) == b);
        assert(a.take(n) == a);
        if a.len() == 0 {
            assert(body(a) + body(b) == body(b));
        } else {
            assert(body(after_segment(a)) == Seq::<Seq<u8>>::empty());
            if is_void(a) {
                assert(body(a) == Seq::<Seq<u8>>::empty());
                assert(body(a) + body(b) == body(b));
            } else {
                assert(body(a) == seq![a]);
            }
        }
    }
}

proof fn lemma_body_of_void(s: Seq<u8>)
    requires
        is_void(s),
    ensures
        body(s) == Seq::<Seq<u8>>::empty(),
{
    if s.len() == 1 {
        assert(segment_len(s.skip(1)) == 0);
        assert(segment_len(s) == 1);
        assert(s.take(1) == s);
        assert(body(after_segment(s)) == Seq::<Seq<u8>>::empty());
    }
}

/// The components of a joined path are those of the directory and then those of
/// the relative path.
pub proof fn law_join_components(base: Seq<u8>, rel: Seq<u8>)
    requires
        base.len() > 0,
        !is_absolute(rel),
    ensures
        components(join(base, rel)) == components(base) + body(rel),
{
    let whole = join(base, rel);
    let lead = lead_len(base);
    assert(whole[0] == base[0]);
    assert(lead_len(whole) == lead) by {
        if base.len() > 1 {
            assert(whole[1] == base[1]);
        } else if whole.len() > 1 && base.last() != SEPARATOR {
            assert(whole[1] == SEPARATOR);
        }
    }
    assert(whole.take(1) == base.take(1));
    let tail = base.skip(lead);
    assert(base.skip(0) == base && whole.skip(0) == whole);
    if tail.len() == 0 {
        assert(lead == 1 && base.len() == 1);
        if base.last() == SEPARATOR {
            assert(whole.skip(1) == rel);
            assert(body(tail) + body(rel) == body(rel));
        } else {
            assert(whole.skip(1) == tail.push(SEPARATOR) + rel);
            lemma_body_concat(tail, rel);
        }
    } else if base.last() == SEPARATOR {
        let front = tail.drop_last();
        assert(tail == front.push(SEPARATOR) + Seq::<u8>::empty());
        lemma_body_concat(front, Seq::empty());
        assert(body(Seq::<u8>::empty()) == Seq::<Seq<u8>>::empty());
        assert(body(front) + body(Seq::<u8>::empty()) == body(front));
        assert(whole.skip(lead) == front.push(SEPARATOR) + rel);
        lemma_body_concat(front, rel);
    } else {
        assert(whole.skip(lead) == tail.push(SEPARATOR) + rel);
        lemma_body_concat(tail, rel);
    }
    if lead == 1 {
        assert((seq![base.take(1)] + body(tail)) + body(rel) == seq![base.take(1)] + (body(tail)
            + body(rel)));
    }
}

proof fn lemma_trim_front(s: Seq<u8>)
    ensures
        body(trim_front(s)) == body(s),
        !is_absolute(trim_front(s)),
    decreases s.len(),
{
    if s.len() > 0 && is_void(s.take(segment_len(s) as int)) {
        lemma_segment_len(s);
        lemma_trim_front(after_segment(s));
    }
}

proof fn lemma_trim_back(s: Seq<u8>)
    ensures
        body(trim_back(s)) == body(s),
        trim_back(s).is_prefix_of(s),
    decreases s.len(),
{
    lemma_last_segment_len(s);
    let n = last_segment_len(s) as int;
    let last = s.skip(s.len() - n);
    if s.len() > 0 && is_void(last) {
        let front = before_last_segment(s);
        lemma_trim_back(front);
        lemma_body_of_void(last);
        if n < s.len() {
            assert(s == front.push(SEPARATOR) + last);
            lemma_body_concat(front, last);
            assert(body(front) + body(last) == body(front));
        } else {
            assert(last == s);
        }
        assert(trim_back(s) == trim_back(front));
        assert(trim_back(front) == s.subrange(0, trim_back(front).len() as int));
    } else {
        assert(s == s.subrange(0, s.len() as int));
    }
}

proof fn lemma_drop_components(s: Seq<u8>, n: nat)
    requires
        n <= body(s).len(),
    ensures
        body(drop_components(s, n)) == body(s).skip(n as int),
    decreases s.len(),
{
    if n == 0 {
        assert(body(s).skip(0) == body(s));
    } else {
        lemma_segment_len(s);
        let first = s.take(segment_len(s) as int);
        let rest = after_segment(s);
        if is_void(first) {
            lemma_drop_components(rest, n);
        } else {
            assert(body(s) == seq![first] + body(rest));
            lemma_drop_components(rest, (n - 1) as nat);
            assert((seq![first] + body(rest)).skip(n as int) == body(rest).skip(n - 1));
        }
    }
}

proof fn lemma_trim_back_start(s: Seq<u8>)
    requires
        !is_absolute(s),
    ensures
        !is_absolute(trim_back(s)),
{
    lemma_trim_back(s);
    let t = trim_back(s);
    if t.len() > 0 {
        assert(t[0] == s.subrange(0, t.len() as int)[0]);
    }
}

/// What `relative_to` leaves of a path holds the components behind those of the
/// directory, and is itself relative.
pub proof fn law_relative_components(p: Seq<u8>, base: Seq<u8>)
    requires
        lies_under(p, base),
        base.len() > 0,
    ensures
        !is_absolute(relative_to(p, base)->0),
        body(relative_to(p, base)->0) == components(p).skip(components(base).len() as int),
{
    let n = components(base).len();
    lemma_components_nonempty(base);
    let lead = lead_len(p);
    let s = p.skip(lead);
    assert(p.skip(0) == p);
    assert(components(p).skip(n as int) == body(s).skip(n - lead)) by {
        if lead == 1 {
            assert((seq![p.take(1)] + body(s)).skip(n as int) == body(s).skip(n - 1));
        }
    }
    let d = drop_components(s, (n - lead) as nat);
    lemma_drop_components(s, (n - lead) as nat);
    lemma_trim_front(d);
    lemma_trim_back(trim_front(d));
    lemma_trim_back_start(trim_front(d));
}

proof fn lemma_components_nonempty(base: Seq<u8>)
    requires
        base.len() > 0,
    ensures
        components(base).len() > 0,
{
    if lead_len(base) == 0 {
        lemma_segment_len(base);
        let n = segment_len(base) as int;
        assert(n > 0);
        let first = base.take(n);
        if is_void(first) {
            assert(first[0] == base[0]);
            assert(starts_at_dot(base));
        }
        assert(body(base).len() > 0);
    }
}

/// Going from a directory to a path below it and back names the same place.
pub proof fn law_relative_then_join(p: Seq<u8>, base: Seq<u8>)
    requires
        lies_under(p, base),
    ensures
        components(join(base, relative_to(p, base)->0)) == components(p),
{
    let r = relative_to(p, base)->0;
    if base.len() > 0 {
        law_relative_components(p, base);
        law_join_components(base, r);
        let n = components(base).len() as int;
        assert(components(base) == components(p).subrange(0, n));
        assert(components(p).subrange(0, n) + components(p).skip(n) == components(p));
    } else {
        assert(components(base) == Seq::<Seq<u8>>::empty());
        let lead = lead_len(p);
        let t = trim_back(p.skip(lead));
        lemma_trim_back(p.skip(lead));
        assert(r == p.take(lead) + t);
        assert(join(base, r) == r);
        assert(p.skip(0) == p);
        if lead == 1 {
            assert(r.skip(1) == t);
            assert(r.take(1) == p.take(1));
            assert(r[0] == p[0]);
            if t.len() > 0 {
                assert(t[0] == p.skip(1).subrange(0, t.len() as int)[0]);
                assert(r[1] == p[1]);
            }
        } else {
            assert(r == t);
            if t.len() > 0 {
                assert(t[0] == p.subrange(0, t.len() as int)[0]);
            }
            lemma_trim_back_keeps_no_dot(p);
        }
    }
}

/// Trimming the end of a path with neither root nor leading `.` gives it none.
proof fn lemma_trim_back_keeps_no_dot(p: Seq<u8>)
    requires
        lead_len(p) == 0,
    ensures
        lead_len(trim_back(p)) == 0,
{
    lemma_trim_back(p);
    let t = trim_back(p);
    if t.len() > 0 {
        assert(t == p.subrange(0, t.len() as int));
        assert(t[0] == p[0]);
        if t.len() > 1 {
            assert(t[1] == p[1]);
        } else if t[0] == DOT && t.len() < p.len() {
            lemma_body_of_void(t);
            lemma_components_nonempty(p);
            assert(body(t) == body(p));
        }
    }
}

/// An absolute path set behind another path adds its components to that one's.
pub proof fn law_append_absolute(base: Seq<u8>, p: Seq<u8>)
    requires
        base.len() > 0,
        is_absolute(p),
    ensures
        components(base + p) == components(base) + components(p).skip(1),
{
    let rest = p.skip(1);
    let whole = base + p;
    let lead = lead_len(base);
    let tail = base.skip(lead);
    assert(whole[0] == base[0]);
    assert(lead_len(whole) == lead) by {
        if base.len() > 1 {
            assert(whole[1] == base[1]);
        } else {
            assert(whole[1] == SEPARATOR);
        }
    }
    assert(base.skip(0) == base && whole.skip(0) == whole);
    assert(whole.skip(lead) == tail.push(SEPARATOR) + rest);
    lemma_body_concat(tail, rest);
    assert(components(p).skip(1) == body(rest));
    if lead == 1 {
        assert(whole.take(1) == base.take(1));
        assert((seq![base.take(1)] + body(tail)) + body(rest) == seq![base.take(1)] + (body(tail)
            + body(rest)));
    }
}

/// Texts are encoded one behind the other.
pub proof fn lemma_encode_concat(a: Seq<char>, b: Seq<char>)
    ensures
        encode_utf8(a + b) == encode_utf8(a) + encode_utf8(b),
    decreases a.len(),
{
    if a.len() == 0 {
        assert(a + b == b);
        assert(encode_utf8(a) + encode_utf8(b) == encode_utf8(b));
    } else {
        assert((a + b).drop_first() == a.drop_first() + b);
        lemma_encode_concat(a.drop_first(), b);
        assert(encode_scalar(a[0] as u32) + (encode_utf8(a.drop_first()) + encode_utf8(b)) == (
        encode_scalar(a[0] as u32) + encode_utf8(a.drop_first())) + encode_utf8(b));
    }
}

/// The bytes that encode a character are the separator's where it is that, and neither
/// start nor end with it otherwise.
proof fn lemma_encode_scalar_ends(c: char)
    ensures
        encode_scalar(c as u32).len() > 0,
        c == '/' ==> encode_scalar(c as u32) == seq![SEPARATOR],
        c != '/' ==> encode_scalar(c as u32)[0] != SEPARATOR && encode_scalar(c as u32).last()
            != SEPARATOR,
{
    let u = c as u32;
    assert(u <= 0x7f ==> (u & 0x7f) as u8 == u) by (bit_vector);
    assert((0x80u8 | (u & 0x3f) as u8) >= 0x80u8) by (bit_vector);
    assert((0xc0u8 | ((u >> 6u32) & 0x1f) as u8) >= 0x80u8) by (bit_vector);
    assert((0xe0u8 | ((u >> 12u32) & 0x0f) as u8) >= 0x80u8) by (bit_vector);
    assert((0xf0u8 | ((u >> 18u32) & 0x7) as u8) >= 0x80u8) by (bit_vector);
    if c == '/' {
        assert(encode_scalar(u) =~= seq![SEPARATOR]);
    }
}

proof fn lemma_encode_one(c: char)
    ensures
        encode_utf8(seq![c]) == encode_scalar(c as u32),
{
    let none = Seq::<char>::empty();
    assert(seq![c].drop_first() =~= none);
    assert(encode_utf8(none) == Seq::<u8>::empty());
    assert(encode_utf8(seq![c]) =~= encode_scalar(c as u32));
}

/// `rel` taken from the directory `base`, both of them texts.
pub open spec fn join_text(base: Seq<char>, rel: Seq<char>) -> Seq<char> {
    if rel.len() > 0 && rel[0] == '/' {
        rel
    } else if base.len() == 0 || base.last() == '/' {
        base + rel
    } else {
        base + "/"@ + rel
    }
}

/// Joining texts and joining the paths that they encode is the same.
pub proof fn law_join_text(base: Seq<char>, rel: Seq<char>)
    ensures
        encode_utf8(join_text(base, rel)) == join(encode_utf8(base), encode_utf8(rel)),
{
    reveal_strlit("/");
    let b = encode_utf8(base);
    let r = encode_utf8(rel);
    if rel.len() > 0 {
        lemma_encode_scalar_ends(rel[0]);
        assert(r[0] == encode_scalar(rel[0] as u32)[0]);
    }
    if base.len() > 0 {
        let last = base.last();
        lemma_encode_scalar_ends(last);
        let one = seq![last];
        assert(base == base.drop_last() + one);
        lemma_encode_concat(base.drop_last(), one);
        lemma_encode_one(last);
        assert(b.last() == encode_scalar(last as u32).last());
    }
    assert(encode_utf8("/"@) =~= seq![SEPARATOR]) by {
        lemma_encode_scalar_ends('/');
        lemma_encode_one('/');
        assert("/"@ =~= seq!['/']);
    }
    lemma_encode_concat(base, rel);
    lemma_encode_concat(base, "/"@);
    lemma_encode_concat(base + "/"@, rel);
    assert(b.push(SEPARATOR) =~= b + seq![SEPARATOR]);
}

/// The contents of a list are those of its items, in their order, and nothing is left
/// out of an optional path.
pub proof fn law_bytes_are_kept(list: Seq<Vec<u8>>, i: int, v: Vec<u8>)
    requires
        0 <= i < list.len(),
    ensures
        byte_texts(list).len() == list.len(),
        byte_texts(list)[i] == list[i]@,
        opt_path(Some(v)) == Some(v@),
        opt_path(None) is None,
{
}

/// Whether some bytes hold no separator.
pub open spec fn is_one_part(part: Seq<u8>) -> bool {
    forall|i: int| 0 <= i < part.len() ==> #[trigger] part[i] != 47
}

/// A path is taken apart at its separators: a part between two of them is a component of
/// its own, unless it is empty or `.`, and the root is the component `/`.
pub proof fn law_components_are_parted_by_separators(a: Seq<u8>, part: Seq<u8>, b: Seq<u8>)
    requires
        is_one_part(part),
    ensures
        components(Seq::<u8>::empty()).len() == 0,
        part.len() > 0 ==> components(part) == seq![part],
        components(seq![47u8] + part) == (if part.len() == 0 || part == seq![46u8] {
            seq![seq![47u8]]
        } else {
            seq![seq![47u8], part]
        }),
        a.len() > 0 ==> components(a.push(47) + b) == components(a) + components(
            seq![47u8] + b,
        ).skip(1),
{
    let none = Seq::<u8>::empty();
    lemma_segment_len_is(part, part.len());
    assert(part.take(part.len() as int) =~= part);
    assert(after_segment(part) =~= none);
    assert(body(none) =~= Seq::<Seq<u8>>::empty());
    if is_void(part) {
        lemma_body_of_void(part);
        if part.len() == 1 {
            assert(part =~= seq![46u8]);
        }
    } else {
        assert(body(part) =~= seq![part]);
        assert(part != seq![46u8]);
    }
    if part.len() > 0 {
        assert(part[0] != 47);
        if lead_len(part) == 1 {
            if part.len() > 1 {
                assert(part[1] != 47);
            }
            assert(part.take(1) =~= part);
            assert(part.skip(1) =~= none);
            assert(components(part) =~= seq![part]);
        }
    }
    let rooted = seq![47u8] + part;
    assert(rooted.take(1) =~= seq![47u8]);
    assert(rooted.skip(1) =~= part);
    assert(components(rooted) =~= if part.len() == 0 || part == seq![46u8] {
        seq![seq![47u8]]
    } else {
        seq![seq![47u8], part]
    });
    if a.len() > 0 {
        let p = seq![47u8] + b;
        assert(a.push(47) + b =~= a + p);
        law_append_absolute(a, p);
    }
}

/// A path lies under another one exactly if its components go on behind that one's.
pub proof fn law_lying_under_is_going_on(p: Seq<u8>, base: Seq<u8>)
    ensures
        lies_under(p, base) <==> exists|rest: Seq<Seq<u8>>| components(p) == #[trigger] (components(
            base,
        ) + rest),
{
    let whole = components(p);
    let front = components(base);
    if lies_under(p, base) {
        assert(whole =~= front + whole.skip(front.len() as int));
    }
    if exists|rest: Seq<Seq<u8>>| whole == #[trigger] (front + rest) {
        let rest = choose|rest: Seq<Seq<u8>>| whole == #[trigger] (front + rest);
        assert(front =~= whole.subrange(0, front.len() as int));
    }
}

/// A joined path is the two with one separator between them; an absolute path is taken
/// as it is.
pub proof fn law_joining_sets_one_separator(base: Seq<u8>, rel: Seq<u8>)
    ensures
        rel.len() > 0 && rel[0] == 47 ==> join(base, rel) == rel,
        rel.len() == 0 || rel[0] != 47 ==> {
            &&& join(Seq::empty(), rel) == rel
            &&& join(base.push(47), rel) == base.push(47) + rel
            &&& base.len() > 0 && base[base.len() - 1] != 47 ==> join(base, rel) == base.push(47)
                + rel
        },
        is_absolute(rel) <==> rel.len() > 0 && rel[0] == 47,
{
    assert(Seq::<u8>::empty() + rel =~= rel);
}

/// Whether a relative path starts and ends with a component: at neither end there is a
/// separator or a part that is only `.`.
pub open spec fn is_clean(rel: Seq<u8>) -> bool {
    let n = rel.len() as int;
    &&& n > 0
    &&& rel[0] != 47
    &&& !(rel[0] == 46 && (n == 1 || rel[1] == 47))
    &&& rel[n - 1] != 47
    &&& !(rel[n - 1] == 46 && (n == 1 || rel[n - 2] == 47))
}

proof fn lemma_drop_front(a: Seq<u8>, b: Seq<u8>)
    ensures
        trim_front(drop_components(a.push(SEPARATOR) + b, body(a).len())) == trim_front(b),
    decreases a.len(),
{
    let s = a.push(SEPARATOR) + b;
    let n = segment_len(a) as int;
    lemma_segment_len(a);
    assert forall|i: int| 0 <= i < n implies #[trigger] s[i] != SEPARATOR by {
        assert(s[i] == a[i]);
    }
    assert(s[n] == SEPARATOR);
    lemma_segment_len_is(s, n as nat);
    let first = a.take(n);
    assert(s.take(n) =~= first);
    if n < a.len() {
        let rest = a.skip(n + 1);
        assert(after_segment(s) =~= rest.push(SEPARATOR) + b);
        lemma_drop_front(rest, b);
        assert(body(a) == if is_void(first) { body(rest) } else { seq![first] + body(rest) });
        if is_void(first) && body(a).len() == 0 {
            assert(trim_front(s) == trim_front(after_segment(s)));
        }
    } else {
        assert(after_segment(s) =~= b);
        assert(first =~= a);
        assert(body(after_segment(a)) =~= Seq::<Seq<u8>>::empty());
        if is_void(a) {
            lemma_body_of_void(a);
            assert(trim_front(s) == trim_front(b));
        } else {
            assert(body(a).len() == 1);
            assert(drop_components(b, 0) == b);
        }
    }
}

proof fn lemma_clean_is_kept(rel: Seq<u8>)
    requires
        is_clean(rel),
    ensures
        trim_front(rel) == rel,
        trim_back(rel) == rel,
{
    lemma_segment_len(rel);
    let n = segment_len(rel) as int;
    let first = rel.take(n);
    assert(n > 0);
    assert(first[0] == rel[0]);
    if is_void(first) {
        assert(n == 1);
        assert(false);
    }
    lemma_last_segment_len(rel);
    let m = last_segment_len(rel) as int;
    let last = rel.skip(rel.len() - m);
    assert(m > 0);
    if is_void(last) {
        assert(m == 1);
        assert(last[0] == rel[rel.len() - 1]);
        if rel.len() > 1 {
            assert(rel[rel.len() - m - 1] == SEPARATOR);
        }
        assert(false);
    }
}

/// Seen from a directory, a path that was joined to it is that path again, byte for byte.
pub proof fn law_join_then_relative(base: Seq<u8>, rel: Seq<u8>)
    requires
        base.len() > 0,
        base[base.len() - 1] != 47,
        is_clean(rel),
    ensures
        relative_to(base.push(47) + rel, base) == Some(rel),
{
    let p = base.push(47) + rel;
    let n = components(base).len();
    law_join_components(base, rel);
    assert(join(base, rel) == p);
    assert(components(base) =~= components(p).subrange(0, n as int));
    lemma_components_nonempty(base);
    lemma_clean_is_kept(rel);
    let lead = lead_len(base);
    assert(p[0] == base[0]);
    assert(lead_len(p) == lead) by {
        if base.len() > 1 {
            assert(p[1] == base[1]);
        } else {
            assert(p[1] == 47);
        }
    }
    let tail = base.skip(lead);
    assert(base.skip(0) =~= base);
    if lead == 1 {
        assert(components(base).len() == 1 + body(tail).len());
    }
    assert(p.skip(lead) =~= tail.push(47) + rel);
    lemma_drop_front(tail, rel);
}

/// Only what lies under a directory is seen from it.
pub proof fn law_nothing_else_is_seen(p: Seq<u8>, base: Seq<u8>)
    ensures
        relative_to(p, base) is Some <==> lies_under(p, base),
{
}

/// Joining texts sets one separator, too.
pub proof fn law_joining_texts_sets_one_separator(base: Seq<char>, rel: Seq<char>)
    requires
        rel.len() > 0 ==> rel[0] != '/',
    ensures
        join_text(Seq::empty(), rel) == rel,
        join_text(base.push('/'), rel) == base.push('/') + rel,
        base.len() > 0 && base[base.len() - 1] != '/' ==> join_text(base, rel) == base.push('/')
            + rel,
{
    reveal_strlit("/");
    assert(Seq::<char>::empty() + rel =~= rel);
    assert(base + "/"@ =~= base.push('/'));
}

proof fn lemma_nothing_but_voids(s: Seq<u8>)
    requires
        body(s).len() == 0,
    ensures
        trim_front(s).len() == 0,
    decreases s.len(),
{
    if s.len() > 0 {
        lemma_segment_len(s);
        lemma_nothing_but_voids(after_segment(s));
    }
}

/// A directory, seen from itself, is the empty path.
pub proof fn law_directory_seen_from_itself(base: Seq<u8>)
    requires
        base.len() > 0,
    ensures
        relative_to(base, base) == Some(Seq::<u8>::empty()),
{
    let n = components(base).len();
    assert(components(base) =~= components(base).subrange(0, n as int));
    lemma_components_nonempty(base);
    let lead = lead_len(base);
    let s = base.skip(lead);
    assert(base.skip(0) =~= base);
    let d = drop_components(s, (n - lead) as nat);
    lemma_drop_components(s, (n - lead) as nat);
    lemma_nothing_but_voids(d);
    assert(trim_front(d) =~= Seq::<u8>::empty());
}

} // verus!
