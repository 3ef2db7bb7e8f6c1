//! Text: the handful of string operations that the rest of the crate is stated
//! over, each with a recursive model on `Seq<char>` and an executable twin.

use vstd::prelude::*;

verus! {

/// The contents of a list of strings.
pub open spec fn texts(list: Seq<String>) -> Seq<Seq<char>> {
    list.map_values(|s: String| s@)
}

/// The contents of an optional string.
pub open spec fn opt_text(s: Option<String>) -> Option<Seq<char>> {
    match s {
        Some(t) => Some(t@),
        None => None,
    }
}

/// The contents of an optional string slice.
pub open spec fn opt_str(s: Option<&str>) -> Option<Seq<char>> {
    match s {
        Some(t) => Some(t@),
        None => None,
    }
}

/// The characters of Unicode's `White_Space` property.
pub open spec fn is_space(c: char) -> bool {
    let u = c as u32;
    ||| 0x9 <= u <= 0xd
    ||| u == 0x20
    ||| u == 0x85
    ||| u == 0xa0
    ||| u == 0x1680
    ||| 0x2000 <= u <= 0x200a
    ||| u == 0x2028
    ||| u == 0x2029
    ||| u == 0x202f
    ||| u == 0x205f
    ||| u == 0x3000
}

/// The number of characters in front of the first one that `stop` accepts.
pub open spec fn run_len(s: Seq<char>, stop: spec_fn(char) -> bool) -> nat
    decreases s.len(),
{
    if s.len() == 0 || stop(s[0]) {
        0
    } else {
        1 + run_len(s.skip(1), stop)
    }
}

pub proof fn lemma_run_len(s: Seq<char>, stop: spec_fn(char) -> bool)
    ensures
        run_len(s, stop) <= s.len(),
        forall|i: int| 0 <= i < run_len(s, stop) ==> !stop(#[trigger] s[i]),
        run_len(s, stop) < s.len() ==> stop(s[run_len(s, stop) as int]),
    decreases s.len(),
{
    if s.len() == 0 || stop(s[0]) {
    } else {
        lemma_run_len(s.skip(1), stop);
        assert forall|i: int| 0 <= i < run_len(s, stop) implies !stop(#[trigger] s[i]) by {
            if i > 0 {
                assert(s[i] == s.skip(1)[i - 1]);
            }
        }
    }
}

/// `run_len` is the only length with its two properties.
pub proof fn lemma_run_len_is(s: Seq<char>, stop: spec_fn(char) -> bool, n: nat)
    requires
        n <= s.len(),
        forall|i: int| 0 <= i < n ==> !stop(#[trigger] s[i]),
        n < s.len() ==> stop(s[n as int]),
    ensures
        run_len(s, stop) == n,
{
    lemma_run_len(s, stop);
    let m = run_len(s, stop);
    if m < n {
        assert(stop(s[m as int]));
    }
    if n < m {
        assert(!stop(s[n as int]));
    }
}

/// The maximal runs of characters that are no white space, in order.
pub open spec fn words(s: Seq<char>) -> Seq<Seq<char>>
    decreases s.len(),
{
    if s.len() == 0 {
        seq![]
    } else if is_space(s[0]) {
        words(s.skip(1))
    } else {
        let n = word_len(s) as int;
        proof {
            lemma_run_len(s, |c: char| is_space(c));
        }
        seq![s.take(n)] + words(s.skip(n))
    }
}

/// The length of the run of non-space characters that `s` starts with.
pub open spec fn word_len(s: Seq<char>) -> nat {
    run_len(s, |c: char| is_space(c))
}

/// The length of the first line of `s`, without its line feed.
pub open spec fn line_len(s: Seq<char>) -> nat {
    run_len(s, |c: char| c == '\n')
}

/// One line without the carriage return in front of its line feed.
pub open spec fn without_return(line: Seq<char>) -> Seq<char> {
    if line.len() > 0 && line.last() == '\r' {
        line.drop_last()
    } else {
        line
    }
}

/// The lines of a text. A line ends at a line feed, or at a carriage return
/// followed by one, or at the end of the text; nothing follows a final line feed.
pub open spec fn lines(s: Seq<char>) -> Seq<Seq<char>>
    decreases s.len(),
{
    if s.len() == 0 {
        seq![]
    } else {
        let n = line_len(s) as int;
        if n < s.len() {
            seq![without_return(s.take(n))] + lines(s.skip(n + 1))
        } else {
            seq![s]
        }
    }
}

/// The text without the white space at its two ends.
pub open spec fn trim(s: Seq<char>) -> Seq<char>
    decreases s.len(),
{
    if s.len() == 0 {
        s
    } else if is_space(s[0]) {
        trim(s.skip(1))
    } else if is_space(s.last()) {
        trim(s.drop_last())
    } else {
        s
    }
}

/// The items with `sep` between neighbours.
pub open spec fn joined(items: Seq<Seq<char>>, sep: Seq<char>) -> Seq<char>
    decreases items.len(),
{
    if items.len() == 0 {
        seq![]
    } else if items.len() == 1 {
        items[0]
    } else {
        joined(items.drop_last(), sep) + sep + items.last()
    }
}

/// Accepts every character but `c`.
pub open spec fn other_than(c: char) -> spec_fn(char) -> bool {
    |x: char| x != c
}

/// Accepts `c` alone.
pub open spec fn exactly(c: char) -> spec_fn(char) -> bool {
    |x: char| x == c
}

/// The text without the characters `c` that it starts with.
pub open spec fn without_leading(s: Seq<char>, c: char) -> Seq<char> {
    s.skip(run_len(s, other_than(c)) as int)
}

/// The text in front of the first `c`, or all of it.
pub open spec fn before_first(s: Seq<char>, c: char) -> Seq<char> {
    s.take(run_len(s, exactly(c)) as int)
}

/// The decimal digits of a number.
pub open spec fn decimal(n: nat) -> Seq<char>
    decreases n,
{
    if n < 10 {
        seq![digit(n)]
    } else {
        decimal(n / 10).push(digit(n % 10))
    }
}

pub open spec fn digit(d: nat) -> char {
    if d == 0 {
        '0'
    } else if d == 1 {
        '1'
    } else if d == 2 {
        '2'
    } else if d == 3 {
        '3'
    } else if d == 4 {
        '4'
    } else if d == 5 {
        '5'
    } else if d == 6 {
        '6'
    } else if d == 7 {
        '7'
    } else if d == 8 {
        '8'
    } else {
        '9'
    }
}

/// Whether `c` is white space.
pub fn space(c: char) -> (r: bool)
    ensures
        r == is_space(c),
{
    let u: u32 = c as u32;
    (0x9 <= u && u <= 0xd) || u == 0x20 || u == 0x85 || u == 0xa0 || u == 0x1680 || (0x2000 <= u
        && u <= 0x200a) || u == 0x2028 || u == 0x2029 || u == 0x202f || u == 0x205f || u == 0x3000
}

/// The characters of a string, one by one.
pub fn chars_of(s: &str) -> (v: Vec<char>)
    ensures
        v@ == s@,
{
    let mut v: Vec<char> = Vec::new();
    for c in it: s.chars()
        invariant
            v@ == it.seq().take(it.index() as int),
            it.seq() == s@,
    {
        v.push(c);
    }
    v
}

/// Whether two strings hold the same text.
pub fn same(a: &str, b: &str) -> (r: bool)
    ensures
        r == (a@ == b@),
{
    a.to_owned() == b.to_owned()
}

/// The words of a text.
pub fn split_words(s: &str) -> (out: Vec<String>)
    ensures
        texts(out@) == words(s@),
{
    let v = chars_of(s);
    let n: usize = v.len();
    let mut out: Vec<String> = Vec::new();
    let mut i: usize = 0;
    assert(s@.skip(0) == s@);
    assert(texts(out@) == Seq::<Seq<char>>::empty());
    while i < n
        invariant
            v@ == s@,
            n == s@.len(),
            i <= n,
            texts(out@) + words(s@.skip(i as int)) == words(s@),
        decreases n - i,
    {
        if space(v[i]) {
            assert(s@.skip(i as int).skip(1) == s@.skip(i + 1));
            i = i + 1;
        } else {
            let start: usize = i;
            let ghost rest = s@.skip(start as int);
            while i < n && !space(v[i])
                invariant
                    v@ == s@,
                    n == s@.len(),
                    start <= i <= n,
                    rest == s@.skip(start as int),
                    forall|k: int| 0 <= k < i - start ==> !is_space(#[trigger] rest[k]),
                decreases n - i,
            {
                assert(rest[i - start] == v@[i as int]);
                i = i + 1;
            }
            proof {
                lemma_run_len_is(rest, |c: char| is_space(c), (i - start) as nat);
                assert(word_len(rest) == i - start);
                assert(rest[0] == v@[start as int]);
            }
            let word = s.substring_char(start, i).to_owned();
            let ghost before = texts(out@);
            out.push(word);
            proof {
                assert(word@ == rest.take(i - start));
                assert(rest.skip(i - start) == s@.skip(i as int));
                assert(texts(out@) == before.push(word@));
                assert(words(rest) == seq![word@] + words(s@.skip(i as int)));
                assert(before + (seq![word@] + words(s@.skip(i as int))) == before.push(word@)
                    + words(s@.skip(i as int)));
            }
        }
    }
    assert(words(s@.skip(n as int)) == Seq::<Seq<char>>::empty());
    assert(texts(out@) + Seq::<Seq<char>>::empty() == texts(out@));
    out
}

/// The lines of a text.
pub fn split_lines(s: &str) -> (out: Vec<String>)
    ensures
        texts(out@) == lines(s@),
{
    let v = chars_of(s);
    let n: usize = v.len();
    let mut out: Vec<String> = Vec::new();
    let mut i: usize = 0;
    assert(s@.skip(0) == s@);
    assert(texts(out@) == Seq::<Seq<char>>::empty());
    while i < n
        invariant
            v@ == s@,
            n == s@.len(),
            i <= n,
            texts(out@) + lines(s@.skip(i as int)) == lines(s@),
        decreases n - i,
    {
        let start: usize = i;
        let ghost rest = s@.skip(start as int);
        while i < n && v[i] != '\n'
            invariant
                v@ == s@,
                n == s@.len(),
                start <= i <= n,
                rest == s@.skip(start as int),
                forall|k: int| 0 <= k < i - start ==> #[trigger] rest[k] != '\n',
            decreases n - i,
        {
            assert(rest[i - start] == v@[i as int]);
            i = i + 1;
        }
        proof {
            if i < n {
                assert(rest[i - start] == v@[i as int]);
            }
            lemma_run_len_is(rest, |c: char| c == '\n', (i - start) as nat);
            assert(line_len(rest) == i - start);
            assert(rest.take(i - start) == s@.subrange(start as int, i as int));
        }
        let mut end: usize = i;
        if i < n && end > start && v[end - 1] == '\r' {
            end = end - 1;
        }
        let line = s.substring_char(start, end).to_owned();
        proof {
            let whole = rest.take(i - start);
            if i < n {
                if whole.len() > 0 {
                    assert(whole.last() == v@[i - 1]);
                }
                assert(line@ == without_return(whole));
            } else {
                assert(line@ == rest);
            }
        }
        let ghost before = texts(out@);
        out.push(line);
        if i < n {
            i = i + 1;
            proof {
                assert(rest.skip(i - start) == s@.skip(i as int));
                assert(lines(rest) == seq![line@] + lines(s@.skip(i as int)));
            }
        } else {
            proof {
                assert(lines(s@.skip(n as int)) == Seq::<Seq<char>>::empty());
                assert(lines(rest) == seq![line@] + lines(s@.skip(i as int)));
            }
        }
        proof {
            assert(texts(out@) == before.push(line@));
            assert(before + (seq![line@] + lines(s@.skip(i as int))) == before.push(line@)
                + lines(s@.skip(i as int)));
        }
    }
    assert(lines(s@.skip(n as int)) == Seq::<Seq<char>>::empty());
    assert(texts(out@) + Seq::<Seq<char>>::empty() == texts(out@));
    out
}

/// The text without the white space at its two ends.
pub fn trimmed(s: &str) -> (out: String)
    ensures
        out@ == trim(s@),
{
    let v = chars_of(s);
    let mut i: usize = 0;
    let mut j: usize = v.len();
    assert(s@.subrange(0, s@.len() as int) == s@);
    while i < j && space(v[i])
        invariant
            v@ == s@,
            j == s@.len(),
            i <= j,
            trim(s@.subrange(i as int, j as int)) == trim(s@),
        decreases j - i,
    {
        assert(s@.subrange(i as int, j as int).skip(1) == s@.subrange(i + 1, j as int));
        i = i + 1;
    }
    while i < j && space(v[j - 1])
        invariant
            v@ == s@,
            i <= j <= s@.len(),
            i < j ==> !is_space(s@[i as int]),
            trim(s@.subrange(i as int, j as int)) == trim(s@),
        decreases j - i,
    {
        assert(s@.subrange(i as int, j as int).drop_last() == s@.subrange(i as int, j - 1));
        j = j - 1;
    }
    s.substring_char(i, j).to_owned()
}

/// The items with `sep` between neighbours.
pub fn join_texts(items: &Vec<String>, sep: &str) -> (out: String)
    ensures
        out@ == joined(texts(items@), sep@),
{
    let mut out = String::new();
    let ghost all = texts(items@);
    for i in 0..items.len()
        invariant
            all == texts(items@),
            out@ == joined(all.take(i as int), sep@),
    {
        if i > 0 {
            out.append(sep);
        }
        out.append(items[i].as_str());
        proof {
            let upto = all.take(i + 1);
            assert(upto.drop_last() == all.take(i as int));
            assert(upto.last() == items@[i as int]@);
        }
    }
    assert(all.take(items@.len() as int) == all);
    out
}

/// The text without the characters `c` that it starts with.
pub fn skip_leading(s: &str, c: char) -> (out: String)
    ensures
        out@ == without_leading(s@, c),
{
    let v = chars_of(s);
    let mut i: usize = 0;
    while i < v.len() && v[i] == c
        invariant
            v@ == s@,
            i <= s@.len(),
            forall|k: int| 0 <= k < i ==> #[trigger] s@[k] == c,
        decreases s@.len() - i,
    {
        i = i + 1;
    }
    proof {
        lemma_run_len_is(s@, other_than(c), i as nat);
    }
    s.substring_char(i, v.len()).to_owned()
}

/// The text in front of the first `c`, or all of it.
pub fn head_before(s: &str, c: char) -> (out: String)
    ensures
        out@ == before_first(s@, c),
{
    let v = chars_of(s);
    let mut i: usize = 0;
    while i < v.len() && v[i] != c
        invariant
            v@ == s@,
            i <= s@.len(),
            forall|k: int| 0 <= k < i ==> #[trigger] s@[k] != c,
        decreases s@.len() - i,
    {
        i = i + 1;
    }
    proof {
        lemma_run_len_is(s@, exactly(c), i as nat);
    }
    s.substring_char(0, i).to_owned()
}

/// The rest of the text behind `prefix`, where it starts with that.
pub open spec fn behind_prefix(s: Seq<char>, prefix: Seq<char>) -> Option<Seq<char>> {
    if prefix.is_prefix_of(s) {
        Some(s.skip(prefix.len() as int))
    } else {
        None
    }
}

/// The rest of the text behind `prefix`, where it starts with that.
pub fn strip_text(s: &str, prefix: &str) -> (out: Option<String>)
    ensures
        opt_text(out) == behind_prefix(s@, prefix@),
{
    let v = chars_of(s);
    let p = chars_of(prefix);
    if p.len() > v.len() {
        return None;
    }
    for i in 0..p.len()
        invariant
            v@ == s@,
            p@ == prefix@,
            p@.len() <= v@.len(),
            forall|k: int| 0 <= k < i ==> #[trigger] s@[k] == prefix@[k],
    {
        if v[i] != p[i] {
            assert(s@.subrange(0, prefix@.len() as int)[i as int] != prefix@[i as int]);
            return None;
        }
    }
    assert(prefix@ == s@.subrange(0, prefix@.len() as int));
    Some(s.substring_char(p.len(), v.len()).to_owned())
}

fn digit_text(d: usize) -> (out: &'static str)
    requires
        d < 10,
    ensures
        out@ == seq![digit(d as nat)],
{
    proof {
        reveal_strlit("0");
        reveal_strlit("1");
        reveal_strlit("2");
        reveal_strlit("3");
        reveal_strlit("4");
        reveal_strlit("5");
        reveal_strlit("6");
        reveal_strlit("7");
        reveal_strlit("8");
        reveal_strlit("9");
    }
    match d {
        0 => "0",
        1 => "1",
        2 => "2",
        3 => "3",
        4 => "4",
        5 => "5",
        6 => "6",
        7 => "7",
        8 => "8",
        _ => "9",
    }
}

/// A number in decimal.
pub fn decimal_text(n: usize) -> (out: String)
    ensures
        out@ == decimal(n as nat),
    decreases n,
{
    let last = digit_text(n % 10);
    if n < 10 {
        last.to_owned()
    } else {
        let head = decimal_text(n / 10);
        let out = head.concat(last);
        assert(out@ == decimal((n / 10) as nat).push(digit((n % 10) as nat)));
        out
    }
}

/// White space is exactly these characters.
pub proof fn law_white_space(c: char)
    ensures
        is_space(c) <==> seq![
            0x9u32,
            0xa,
            0xb,
            0xc,
            0xd,
            0x20,
            0x85,
            0xa0,
            0x1680,
            0x2000,
            0x2001,
            0x2002,
            0x2003,
            0x2004,
            0x2005,
            0x2006,
            0x2007,
            0x2008,
            0x2009,
            0x200a,
            0x2028,
            0x2029,
            0x202f,
            0x205f,
            0x3000,
        ].contains(c as u32),
{
    let u = c as u32;
    let all = seq![
        0x9u32,
        0xa,
        0xb,
        0xc,
        0xd,
        0x20,
        0x85,
        0xa0,
        0x1680,
        0x2000,
        0x2001,
        0x2002,
        0x2003,
        0x2004,
        0x2005,
        0x2006,
        0x2007,
        0x2008,
        0x2009,
        0x200a,
        0x2028,
        0x2029,
        0x202f,
        0x205f,
        0x3000,
    ];
    if 0x9 <= u <= 0xd {
        assert(all[u - 0x9] == u);
    }
    if 0x2000 <= u <= 0x200a {
        assert(all[9 + (u - 0x2000)] == u);
    }
    assert(all[5] == 0x20 && all[6] == 0x85 && all[7] == 0xa0 && all[8] == 0x1680);
    assert(all[20] == 0x2028 && all[21] == 0x2029 && all[22] == 0x202f && all[23] == 0x205f
        && all[24] == 0x3000);
}

/// White space parts a text into texts whose words are its words, and a text without any
/// is one word.
pub proof fn law_words_are_parted_by_space(a: Seq<char>, c: char, b: Seq<char>)
    requires
        is_space(c),
    ensures
        words(a.push(c) + b) == words(a) + words(b),
        words(Seq::<char>::empty()).len() == 0,
        b.len() > 0 && (forall|i: int| 0 <= i < b.len() ==> !is_space(#[trigger] b[i])) ==> words(b)
            == seq![b],
    decreases a.len(),
{
    let s = a.push(c) + b;
    if a.len() == 0 {
        assert(s.skip(1) =~= b);
        assert(words(a) + words(b) =~= words(b));
    } else if is_space(a[0]) {
        law_words_are_parted_by_space(a.skip(1), c, b);
        assert(s.skip(1) =~= a.skip(1).push(c) + b);
    } else {
        let stop = |c: char| is_space(c);
        lemma_run_len(a, stop);
        let n = run_len(a, stop);
        assert forall|i: int| 0 <= i < n implies !stop(#[trigger] s[i]) by {
            assert(s[i] == a[i]);
        }
        if n < a.len() {
            assert(s[n as int] == a[n as int]);
        } else {
            assert(s[n as int] == c);
        }
        lemma_run_len_is(s, stop, n);
        assert(word_len(s) == n && word_len(a) == n);
        let rest = a.skip(n as int);
        assert(s.take(n as int) =~= a.take(n as int));
        assert(s.skip(n as int) =~= rest.push(c) + b);
        law_words_are_parted_by_space(rest, c, b);
        assert(seq![a.take(n as int)] + (words(rest) + words(b)) =~= (seq![a.take(n as int)]
            + words(rest)) + words(b));
    }
    if b.len() > 0 && (forall|i: int| 0 <= i < b.len() ==> !is_space(#[trigger] b[i])) {
        let stop = |c: char| is_space(c);
        lemma_run_len_is(b, stop, b.len());
        assert(word_len(b) == b.len());
        assert(b.take(b.len() as int) =~= b);
        assert(words(b.skip(b.len() as int)) =~= Seq::<Seq<char>>::empty());
        assert(words(b) =~= seq![b]);
    }
}

/// A line ends at a line feed, with or without a carriage return in front of it, and the
/// lines behind it are those of the rest.
pub proof fn law_lines_end_at_line_feeds(a: Seq<char>, b: Seq<char>)
    requires
        forall|i: int| 0 <= i < a.len() ==> #[trigger] a[i] != '\n',
    ensures
        lines(Seq::<char>::empty()).len() == 0,
        a.len() > 0 ==> lines(a) == seq![a],
        a.len() == 0 || a[a.len() - 1] != '\r' ==> lines(a.push('\n') + b) == seq![a] + lines(b),
        lines(a.push('\r').push('\n') + b) == seq![a] + lines(b),
{
    let stop = |c: char| c == '\n';
    let s = a.push('\n') + b;
    let n = a.len();
    assert forall|i: int| 0 <= i < n implies !stop(#[trigger] s[i]) by {
        assert(s[i] == a[i]);
    }
    assert(s[n as int] == '\n');
    lemma_run_len_is(s, stop, n);
    assert(line_len(s) == n);
    assert(s.take(n as int) =~= a);
    assert(s.skip(n + 1 as int) =~= b);
    let t = a.push('\r').push('\n') + b;
    let r = a.push('\r');
    assert forall|i: int| 0 <= i < n + 1 implies !stop(#[trigger] t[i]) by {
        assert(t[i] == r[i]);
        if i < n {
            assert(r[i] == a[i]);
        }
    }
    assert(t[n + 1 as int] == '\n');
    lemma_run_len_is(t, stop, n + 1);
    assert(line_len(t) == n + 1);
    assert(t.take(n + 1 as int) =~= r);
    assert(t.skip(n + 2 as int) =~= b);
    assert(r.drop_last() =~= a);
    if n > 0 {
        lemma_run_len_is(a, stop, n);
        assert(line_len(a) == n);
    }
}

/// Trimming removes the white space around a text, and nothing within it.
pub proof fn law_trim_keeps_the_middle(left: Seq<char>, middle: Seq<char>, right: Seq<char>)
    requires
        forall|i: int| 0 <= i < left.len() ==> is_space(#[trigger] left[i]),
        forall|i: int| 0 <= i < right.len() ==> is_space(#[trigger] right[i]),
        middle.len() > 0 ==> !is_space(middle[0]) && !is_space(middle[middle.len() - 1]),
    ensures
        trim(left + middle + right) == middle,
    decreases left.len() + right.len(),
{
    let s = left + middle + right;
    if left.len() > 0 {
        assert(s[0] == left[0]);
        let less = left.skip(1);
        assert forall|i: int| 0 <= i < less.len() implies is_space(#[trigger] less[i]) by {
            assert(less[i] == left[i + 1]);
        }
        assert(s.skip(1) =~= less + middle + right);
        law_trim_keeps_the_middle(less, middle, right);
    } else if right.len() > 0 {
        assert(s.last() == right[right.len() - 1]);
        if middle.len() > 0 {
            let less = right.drop_last();
            assert(s[0] == middle[0]);
            assert(s.drop_last() =~= left + middle + less);
            law_trim_keeps_the_middle(left, middle, less);
        } else {
            let less = right.skip(1);
            assert(s[0] == right[0]);
            assert forall|i: int| 0 <= i < less.len() implies is_space(#[trigger] less[i]) by {
                assert(less[i] == right[i + 1]);
            }
            assert(s.skip(1) =~= left + middle + less);
            law_trim_keeps_the_middle(left, middle, less);
        }
    } else {
        assert(s =~= middle);
    }
}

/// Two lists that are joined one behind the other have one separator between them.
pub proof fn law_joined_lists_have_one_separator(
    a: Seq<Seq<char>>,
    b: Seq<Seq<char>>,
    item: Seq<char>,
    sep: Seq<char>,
)
    ensures
        joined(seq![item], sep) == item,
        joined(Seq::<Seq<char>>::empty(), sep).len() == 0,
        a.len() > 0 && b.len() > 0 ==> joined(a + b, sep) == joined(a, sep) + sep + joined(b, sep),
    decreases b.len(),
{
    if a.len() > 0 && b.len() > 0 {
        assert((a + b).drop_last() =~= a + b.drop_last());
        assert((a + b).last() == b.last());
        if b.len() == 1 {
            assert(a + b.drop_last() =~= a);
        } else {
            law_joined_lists_have_one_separator(a, b.drop_last(), item, sep);
            assert(joined(a, sep) + sep + joined(b.drop_last(), sep) + sep + b.last() =~= joined(
                a,
                sep,
            ) + sep + (joined(b.drop_last(), sep) + sep + b.last()));
        }
    }
}

/// Exactly the characters in front that are `c` are left out.
pub proof fn law_leading_characters_are_left_out(run: Seq<char>, rest: Seq<char>, c: char)
    requires
        forall|i: int| 0 <= i < run.len() ==> #[trigger] run[i] == c,
        rest.len() > 0 ==> rest[0] != c,
    ensures
        without_leading(run + rest, c) == rest,
{
    let s = run + rest;
    assert forall|i: int| 0 <= i < run.len() implies !other_than(c)(#[trigger] s[i]) by {
        assert(s[i] == run[i]);
    }
    if rest.len() > 0 {
        assert(s[run.len() as int] == rest[0]);
    }
    lemma_run_len_is(s, other_than(c), run.len());
    assert(s.skip(run.len() as int) =~= rest);
}

/// The text in front of the first `c` is what stands there, and a text without one is in
/// front of it as a whole.
pub proof fn law_head_stands_before_the_first(head: Seq<char>, c: char, rest: Seq<char>)
    requires
        forall|i: int| 0 <= i < head.len() ==> #[trigger] head[i] != c,
    ensures
        before_first(head, c) == head,
        before_first(head.push(c) + rest, c) == head,
{
    let s = head.push(c) + rest;
    assert forall|i: int| 0 <= i < head.len() implies !exactly(c)(#[trigger] s[i]) by {
        assert(s[i] == head[i]);
    }
    assert(s[head.len() as int] == c);
    lemma_run_len_is(s, exactly(c), head.len());
    assert(s.take(head.len() as int) =~= head);
    lemma_run_len_is(head, exactly(c), head.len());
    assert(head.take(head.len() as int) =~= head);
}

/// What is behind a prefix is what was set behind it, and only a text that starts with
/// the prefix has anything there.
pub proof fn law_prefix_and_rest(s: Seq<char>, prefix: Seq<char>, rest: Seq<char>)
    ensures
        behind_prefix(s, prefix) == Some(rest) <==> s == prefix + rest,
        behind_prefix(s, prefix) is None <==> !(exists|r: Seq<char>| s == #[trigger] (prefix + r)),
{
    if s == prefix + rest {
        assert(s.subrange(0, prefix.len() as int) =~= prefix);
        assert(s.skip(prefix.len() as int) =~= rest);
    }
    if prefix.is_prefix_of(s) {
        let r = s.skip(prefix.len() as int);
        assert(s =~= prefix + r);
    }
    if exists|r: Seq<char>| s == #[trigger] (prefix + r) {
        let r = choose|r: Seq<char>| s == #[trigger] (prefix + r);
        assert(s.subrange(0, prefix.len() as int) =~= prefix);
    }
}

/// The number that decimal digits stand for.
pub open spec fn value_of(digits: Seq<char>) -> int
    decreases digits.len(),
{
    if digits.len() == 0 {
        0
    } else {
        10 * value_of(digits.drop_last()) + (digits.last() as int - '0' as int)
    }
}

/// The decimal digits of a number stand for it, are digits, and have no zero in front.
pub proof fn law_decimal_reads_back(n: nat)
    ensures
        value_of(decimal(n)) == n,
        decimal(n).len() > 0,
        forall|i: int| 0 <= i < decimal(n).len() ==> '0' <= #[trigger] decimal(n)[i] <= '9',
        decimal(n)[0] == '0' ==> n == 0 && decimal(n).len() == 1,
    decreases n,
{
    reveal_with_fuel(value_of, 2);
    if n >= 10 {
        let front = decimal(n / 10);
        law_decimal_reads_back(n / 10);
        assert(decimal(n).drop_last() =~= front);
        assert(decimal(n).last() as int - '0' as int == n % 10);
        assert forall|i: int| 0 <= i < decimal(n).len() implies '0' <= #[trigger] decimal(n)[i]
            <= '9' by {
            if i < front.len() {
                assert(decimal(n)[i] == front[i]);
            }
        }
        assert(decimal(n)[0] == front[0]);
    } else {
        assert(decimal(n).drop_last() =~= Seq::<char>::empty());
    }
}

/// The contents of a list are those of its items, in their order, and nothing is left
/// out of an optional text.
pub proof fn law_contents_are_kept(list: Seq<String>, i: int, s: String, t: &str)
    requires
        0 <= i < list.len(),
    ensures
        texts(list).len() == list.len(),
        texts(list)[i] == list[i]@,
        opt_text(Some(s)) == Some(s@),
        opt_text(None) is None,
        opt_str(Some(t)) == Some(t@),
        opt_str(None) is None,
{
}

} // verus!
