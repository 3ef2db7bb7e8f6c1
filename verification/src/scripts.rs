//! Shell scripts: absolute paths in a package's scripts are set to the same paths under
//! the overlay, where the merged packages have something there.
//!
//! A path starts at a `/` in front of which a word of the shell can start, and goes on
//! to the next byte that ends a word or is expanded by the shell. Only paths into the
//! system's directories are looked at, as with the targets of links.

use crate::farm::{
    is_system_path, law_system_path_is_told_by_its_first_name, overlay_path, overlay_root,
    points_into_system, system_names,
};
use crate::paths::{
    append_bytes, byte_texts, components, copy_range, is_absolute, is_under, law_append_absolute,
    lies_under, opt_path, same_bytes, SEPARATOR,
};
use vstd::prelude::*;
use vstd::slice::{slice_subrange, slice_to_vec};
use vstd::utf8::{encode_utf8, is_ascii_chars_encode_utf8};

verus! {

pub const LINE_FEED: u8 = 10;

/// Whether a byte is a blank within a line.
pub open spec fn is_blank(b: u8) -> bool {
    b == 32 || b == 9
}

/// Whether `name` stands at `i` as the last part of a word: behind a blank, a `/` or the
/// `#!`, and in front of a blank or the end of the line.
pub open spec fn stands_at(s: Seq<u8>, i: int, name: Seq<u8>) -> bool {
    let end = i + name.len();
    &&& 2 <= i
    &&& end <= s.len()
    &&& s.subrange(i, end) == name
    &&& i == 2 || is_blank(s[i - 1]) || s[i - 1] == SEPARATOR
    &&& end == s.len() || is_blank(s[end]) || s[end] == LINE_FEED
}

/// Whether a shell is named at `i`.
pub open spec fn names_shell(s: Seq<u8>, i: int) -> bool {
    ||| stands_at(s, i, encode_utf8("sh"@))
    ||| stands_at(s, i, encode_utf8("bash"@))
    ||| stands_at(s, i, encode_utf8("dash"@))
    ||| stands_at(s, i, encode_utf8("ash"@))
    ||| stands_at(s, i, encode_utf8("ksh"@))
    ||| stands_at(s, i, encode_utf8("zsh"@))
}

/// Whether `i` is in the first line.
pub open spec fn is_in_first_line(s: Seq<u8>, i: int) -> bool {
    forall|k: int| 0 <= k < i ==> #[trigger] s[k] != LINE_FEED
}

/// Whether the file starts as a script does.
pub open spec fn has_script_mark(s: Seq<u8>) -> bool {
    s.len() >= 2 && s[0] == '#' as u8 && s[1] == '!' as u8
}

/// Whether the file is a shell script: its first line names a shell behind `#!`.
pub open spec fn is_shell_script(s: Seq<u8>) -> bool {
    has_script_mark(s) && exists|i: int|
        0 <= i < s.len() && is_in_first_line(s, i) && #[trigger] names_shell(s, i)
}

/// Whether a byte quotes what follows or precedes it: `"`, `'` or a backquote.
pub open spec fn is_quote(b: u8) -> bool {
    b == 34 || b == 39 || b == 96
}

/// Whether a word can start behind a byte: white space, or one of `=:;&|<>({,!`.
pub open spec fn opens_word(b: u8) -> bool {
    ||| is_blank(b)
    ||| b == LINE_FEED
    ||| b == 13
    ||| b == '=' as u8
    ||| b == ':' as u8
    ||| b == ';' as u8
    ||| b == '&' as u8
    ||| b == '|' as u8
    ||| b == '<' as u8
    ||| b == '>' as u8
    ||| b == '(' as u8
    ||| b == '{' as u8
    ||| b == ',' as u8
    ||| b == '!' as u8
}

/// Whether a byte ends a path: one that a word can start behind, a quote, or one of
/// `)}$*?[]\`.
pub open spec fn ends_path(b: u8) -> bool {
    ||| opens_word(b)
    ||| is_quote(b)
    ||| b == ')' as u8
    ||| b == '}' as u8
    ||| b == '$' as u8
    ||| b == '*' as u8
    ||| b == '?' as u8
    ||| b == '[' as u8
    ||| b == ']' as u8
    ||| b == 92
}

/// Whether a word can start at `i`, behind quotes or not.
pub open spec fn is_opened(s: Seq<u8>, i: int) -> bool
    decreases i,
{
    if i <= 0 {
        true
    } else if is_quote(s[i - 1]) {
        is_opened(s, i - 1)
    } else {
        opens_word(s[i - 1])
    }
}

/// The length of the path that starts at `i`.
pub open spec fn path_len(s: Seq<u8>, i: int) -> nat
    decreases s.len() - i,
{
    if i >= s.len() || ends_path(s[i]) {
        0
    } else {
        1 + path_len(s, i + 1)
    }
}

/// The path that starts at `i`.
pub open spec fn path_at(s: Seq<u8>, i: int) -> Seq<u8> {
    s.subrange(i, i + path_len(s, i))
}

/// Whether a path into the system's directories starts at `i`.
pub open spec fn starts_path(s: Seq<u8>, i: int) -> bool {
    s[i] == SEPARATOR && is_opened(s, i) && is_system_path(path_at(s, i))
}

/// Where such paths start, among the first `n` bytes.
pub open spec fn starts_below(s: Seq<u8>, n: int) -> Seq<int>
    decreases n,
{
    if n <= 0 {
        seq![]
    } else if starts_path(s, n - 1) {
        starts_below(s, n - 1).push(n - 1)
    } else {
        starts_below(s, n - 1)
    }
}

/// Where such paths start in a shell script; other files have none.
pub open spec fn path_starts(s: Seq<u8>) -> Seq<int> {
    if is_shell_script(s) {
        starts_below(s, s.len() as int)
    } else {
        seq![]
    }
}

/// Such paths of a shell script.
pub open spec fn paths_in(s: Seq<u8>) -> Seq<Seq<u8>> {
    path_starts(s).map_values(|i: int| path_at(s, i))
}

/// The overlay's own path.
pub open spec fn overlay() -> Seq<u8> {
    encode_utf8(overlay_root())
}

/// What is set in front of a path.
pub open spec fn inserted_at(provided: bool) -> Seq<u8> {
    if provided {
        overlay()
    } else {
        seq![]
    }
}

/// `s` with the overlay's path in front of the places that are provided.
pub open spec fn with_overlay(s: Seq<u8>, starts: Seq<int>, provided: Seq<bool>) -> Seq<u8>
    decreases starts.len(),
{
    if starts.len() == 0 {
        s
    } else {
        let last = starts.last();
        with_overlay(s.take(last), starts.drop_last(), provided.drop_last()) + inserted_at(
            provided.last(),
        ) + s.skip(last)
    }
}

/// The script in which the paths that the overlay provides lead there, where there is
/// one.
pub open spec fn rewritten_script(s: Seq<u8>, provided: Seq<bool>) -> Option<Seq<u8>> {
    if provided.contains(true) {
        Some(with_overlay(s, path_starts(s), provided))
    } else {
        None
    }
}

fn blank(b: u8) -> (r: bool)
    ensures
        r == is_blank(b),
{
    b == 32 || b == 9
}

fn quote(b: u8) -> (r: bool)
    ensures
        r == is_quote(b),
{
    b == 34 || b == 39 || b == 96
}

fn opens(b: u8) -> (r: bool)
    ensures
        r == opens_word(b),
{
    blank(b) || b == LINE_FEED || b == 13 || b == '=' as u8 || b == ':' as u8 || b == ';' as u8 || b
        == '&' as u8 || b == '|' as u8 || b == '<' as u8 || b == '>' as u8 || b == '(' as u8 || b
        == '{' as u8 || b == ',' as u8 || b == '!' as u8
}

fn ends(b: u8) -> (r: bool)
    ensures
        r == ends_path(b),
{
    opens(b) || quote(b) || b == ')' as u8 || b == '}' as u8 || b == '$' as u8 || b == '*' as u8 || b
        == '?' as u8 || b == '[' as u8 || b == ']' as u8 || b == 92
}

fn stands(s: &[u8], i: usize, name: &[u8]) -> (r: bool)
    requires
        2 <= i <= s@.len(),
    ensures
        r == stands_at(s@, i as int, name@),
{
    if name.len() > s.len() - i {
        return false;
    }
    let end: usize = i + name.len();
    same_bytes(slice_subrange(s, i, end), name) && (i == 2 || blank(s[i - 1]) || s[i - 1]
        == SEPARATOR) && (end == s.len() || blank(s[end]) || s[end] == LINE_FEED)
}

/// Whether the file starts as a script does, from its first bytes.
pub fn may_be_script(head: &[u8]) -> (r: bool)
    ensures
        r == has_script_mark(head@),
{
    head.len() >= 2 && head[0] == '#' as u8 && head[1] == '!' as u8
}

/// Whether the file is a shell script.
pub fn shell_script(s: &[u8]) -> (r: bool)
    ensures
        r == is_shell_script(s@),
{
    if !may_be_script(s) {
        return false;
    }
    let mut i: usize = 2;
    while i < s.len()
        invariant
            has_script_mark(s@),
            2 <= i <= s@.len(),
            is_in_first_line(s@, i as int),
            forall|k: int| 0 <= k < i ==> !#[trigger] names_shell(s@, k),
        decreases s@.len() - i,
    {
        if stands(s, i, "sh".as_bytes()) || stands(s, i, "bash".as_bytes()) || stands(
            s,
            i,
            "dash".as_bytes(),
        ) || stands(s, i, "ash".as_bytes()) || stands(s, i, "ksh".as_bytes()) || stands(
            s,
            i,
            "zsh".as_bytes(),
        ) {
            assert(names_shell(s@, i as int));
            return true;
        }
        if s[i] == LINE_FEED {
            assert forall|k: int| 0 <= k < s@.len() && is_in_first_line(s@, k) implies
                !#[trigger] names_shell(s@, k) by {
                if k > i {
                    assert(s@[i as int] != LINE_FEED);
                }
            }
            return false;
        }
        i = i + 1;
    }
    false
}

/// Where the path that starts at `i` ends.
fn path_end(s: &[u8], i: usize) -> (end: usize)
    requires
        i <= s@.len(),
    ensures
        i <= end <= s@.len(),
        end == i + path_len(s@, i as int),
{
    let mut end: usize = i;
    while end < s.len() && !ends(s[end])
        invariant
            i <= end <= s@.len(),
            end + path_len(s@, end as int) == i + path_len(s@, i as int),
        decreases s@.len() - end,
    {
        end = end + 1;
    }
    end
}

fn opened(s: &[u8], i: usize) -> (r: bool)
    requires
        i <= s@.len(),
    ensures
        r == is_opened(s@, i as int),
{
    let mut k: usize = i;
    while k > 0 && quote(s[k - 1])
        invariant
            k <= i <= s@.len(),
            is_opened(s@, k as int) == is_opened(s@, i as int),
        decreases k,
    {
        k = k - 1;
    }
    k == 0 || opens(s[k - 1])
}

/// Whether a path into the system's directories starts at `i`.
fn path_starts_at(s: &[u8], i: usize) -> (r: bool)
    requires
        i < s@.len(),
    ensures
        r == starts_path(s@, i as int),
{
    if s[i] != SEPARATOR || !opened(s, i) {
        return false;
    }
    let end = path_end(s, i);
    points_into_system(slice_subrange(s, i, end))
}

/// The paths into the system's directories that a shell script holds.
pub fn script_paths(s: &[u8]) -> (out: Vec<Vec<u8>>)
    ensures
        byte_texts(out@) == paths_in(s@),
{
    let mut out: Vec<Vec<u8>> = Vec::new();
    if !shell_script(s) {
        assert(byte_texts(out@) =~= paths_in(s@));
        return out;
    }
    assert(byte_texts(out@) =~= starts_below(s@, 0).map_values(|i: int| path_at(s@, i)));
    for i in 0..s.len()
        invariant
            byte_texts(out@) == starts_below(s@, i as int).map_values(|i: int| path_at(s@, i)),
    {
        if path_starts_at(s, i) {
            let ghost before = byte_texts(out@);
            let end = path_end(s, i);
            let path = copy_range(s, i, end);
            out.push(path);
            assert(byte_texts(out@) =~= before.push(path@));
            assert(starts_below(s@, i + 1).map_values(|i: int| path_at(s@, i)) =~= before.push(
                path@,
            ));
        }
    }
    out
}

proof fn lemma_starts_below(s: Seq<u8>, n: int)
    ensures
        forall|k: int|
            0 <= k < starts_below(s, n).len() ==> 0 <= #[trigger] starts_below(s, n)[k] < n
                && starts_path(s, starts_below(s, n)[k]),
        forall|k: int, l: int|
            0 <= k < l < starts_below(s, n).len() ==> #[trigger] starts_below(s, n)[k]
                < #[trigger] starts_below(s, n)[l],
    decreases n,
{
    if n > 0 {
        lemma_starts_below(s, n - 1);
        let front = starts_below(s, n - 1);
        let all = starts_below(s, n);
        assert forall|k: int| 0 <= k < all.len() implies 0 <= #[trigger] all[k] < n && starts_path(
            s,
            all[k],
        ) by {
            if k < front.len() {
                assert(all[k] == front[k]);
            }
        }
        assert forall|k: int, l: int| 0 <= k < l < all.len() implies #[trigger] all[k]
            < #[trigger] all[l] by {
            assert(all[k] == front[k]);
            if l < front.len() {
                assert(all[l] == front[l]);
            }
        }
    }
}

proof fn lemma_starts_grow(s: Seq<u8>, n: int, m: int)
    requires
        n <= m,
    ensures
        starts_below(s, n).is_prefix_of(starts_below(s, m)),
    decreases m - n,
{
    if n < m {
        lemma_starts_grow(s, n, m - 1);
        let a = starts_below(s, n);
        let b = starts_below(s, m - 1);
        let c = starts_below(s, m);
        assert(a == b.subrange(0, a.len() as int));
        assert(a =~= c.subrange(0, a.len() as int)) by {
            assert forall|k: int| 0 <= k < a.len() implies a[k] == c[k] by {
                assert(a[k] == b.subrange(0, a.len() as int)[k]);
            }
        }
    } else {
        let a = starts_below(s, n);
        assert(a =~= a.subrange(0, a.len() as int));
    }
}

/// A byte behind the last place goes behind all else.
proof fn lemma_one_more_byte(t: Seq<u8>, b: u8, starts: Seq<int>, provided: Seq<bool>)
    requires
        starts.len() > 0 ==> 0 <= starts.last() <= t.len(),
    ensures
        with_overlay(t.push(b), starts, provided) == with_overlay(t, starts, provided).push(b),
{
    if starts.len() > 0 {
        let last = starts.last();
        assert(t.push(b).take(last) =~= t.take(last));
        assert(t.push(b).skip(last) =~= t.skip(last).push(b));
        let front = with_overlay(t.take(last), starts.drop_last(), provided.drop_last())
            + inserted_at(provided.last());
        assert(front + t.skip(last).push(b) =~= (front + t.skip(last)).push(b));
    }
}

fn holds_true(list: &[bool]) -> (r: bool)
    ensures
        r == list@.contains(true),
{
    for i in 0..list.len()
        invariant
            forall|k: int| 0 <= k < i ==> !#[trigger] list@[k],
    {
        if list[i] {
            assert(list@[i as int]);
            return true;
        }
    }
    false
}

/// The script in which the paths that the overlay provides lead there. `provided` says
/// which of the script's paths those are. Where there is none the file can stay as it
/// is.
pub fn rewrite_script(s: &[u8], provided: &[bool]) -> (r: Option<Vec<u8>>)
    requires
        provided@.len() == paths_in(s@).len(),
    ensures
        opt_path(r) == rewritten_script(s@, provided@),
{
    if !holds_true(provided) {
        return None;
    }
    proof {
        assert(provided@.len() > 0);
        assert(is_shell_script(s@));
    }
    let empty: [u8; 0] = [];
    let root = overlay_path(&empty);
    let mut out: Vec<u8> = Vec::new();
    let mut k: usize = 0;
    proof {
        assert(root@ =~= overlay());
        assert(s@.take(0) =~= Seq::<u8>::empty());
        assert(out@ =~= with_overlay(s@.take(0), starts_below(s@, 0), provided@.take(0)));
    }
    for i in 0..s.len()
        invariant
            root@ == overlay(),
            provided@.len() == starts_below(s@, s@.len() as int).len(),
            k == starts_below(s@, i as int).len(),
            k <= provided@.len(),
            out@ == with_overlay(
                s@.take(i as int),
                starts_below(s@, i as int),
                provided@.take(k as int),
            ),
    {
        let ghost t = s@.take(i as int);
        let ghost starts = starts_below(s@, i as int);
        proof {
            lemma_starts_below(s@, i as int);
            lemma_starts_grow(s@, i + 1, s@.len() as int);
            assert(s@.take(i + 1) =~= t.push(s@[i as int]));
        }
        if path_starts_at(s, i) {
            if provided[k] {
                append_bytes(&mut out, root.as_slice());
            }
            proof {
                let now = provided@.take(k + 1);
                let places = starts.push(i as int);
                assert(places == starts_below(s@, i + 1));
                assert(now.drop_last() =~= provided@.take(k as int));
                assert(now.last() == provided@[k as int]);
                assert(places.drop_last() =~= starts);
                assert(t.take(i as int) =~= t);
                assert(t.skip(i as int) =~= Seq::<u8>::empty());
                assert(out@ =~= with_overlay(t, places, now));
                lemma_one_more_byte(t, s@[i as int], places, now);
            }
            k = k + 1;
        } else {
            proof {
                lemma_one_more_byte(t, s@[i as int], starts, provided@.take(k as int));
            }
        }
        out.push(s[i]);
    }
    proof {
        assert(s@.take(s@.len() as int) =~= s@);
        assert(provided@.take(k as int) =~= provided@);
    }
    Some(out)
}

/// Where a path of a script is found in the farm.
pub fn place_in_farm(farm_root: &[u8], path: &[u8]) -> (at: Vec<u8>)
    ensures
        at@ == farm_root@ + path@,
{
    let mut at = slice_to_vec(farm_root);
    append_bytes(&mut at, path);
    at
}

/// What is to be done next for one link of the farm.
#[derive(Debug)]
pub enum ScriptStep {
    /// Read the first two bytes of the file that `source` leads to, if it is a file.
    ReadHead { source: Vec<u8>, at: Vec<u8> },
    /// Read the whole file.
    ReadText { source: Vec<u8>, at: Vec<u8> },
    /// Find out at which of the places the farm itself has something.
    LookUp { places: Vec<Vec<u8>>, source: Vec<u8>, at: Vec<u8>, text: Vec<u8> },
    /// Put a file with this text, and with the permissions of `source`, in the place of
    /// the link `at`.
    Replace { source: Vec<u8>, at: Vec<u8>, text: Vec<u8> },
    /// The link is dealt with.
    Done,
}

/// What came of a step.
#[derive(Debug)]
pub enum ScriptEvent {
    /// The first bytes, if there is a file that can be read.
    Head(Option<Vec<u8>>),
    /// The whole text, if it can be read.
    Text(Option<Vec<u8>>),
    /// Which of the places hold something.
    Provided(Vec<bool>),
    /// The file is there.
    Replaced,
}

/// What a step holds.
pub enum ScriptStepView {
    ReadHead { source: Seq<u8>, at: Seq<u8> },
    ReadText { source: Seq<u8>, at: Seq<u8> },
    LookUp { places: Seq<Seq<u8>>, source: Seq<u8>, at: Seq<u8>, text: Seq<u8> },
    Replace { source: Seq<u8>, at: Seq<u8>, text: Seq<u8> },
    Done,
}

/// What an event holds.
pub enum ScriptEventView {
    Head(Option<Seq<u8>>),
    Text(Option<Seq<u8>>),
    Provided(Seq<bool>),
    Replaced,
}

impl View for ScriptStep {
    type V = ScriptStepView;

    open spec fn view(&self) -> ScriptStepView {
        match self {
            ScriptStep::ReadHead { source, at } => ScriptStepView::ReadHead {
                source: source@,
                at: at@,
            },
            ScriptStep::ReadText { source, at } => ScriptStepView::ReadText {
                source: source@,
                at: at@,
            },
            ScriptStep::LookUp { places, source, at, text } => ScriptStepView::LookUp {
                places: byte_texts(places@),
                source: source@,
                at: at@,
                text: text@,
            },
            ScriptStep::Replace { source, at, text } => ScriptStepView::Replace {
                source: source@,
                at: at@,
                text: text@,
            },
            ScriptStep::Done => ScriptStepView::Done,
        }
    }
}

impl View for ScriptEvent {
    type V = ScriptEventView;

    open spec fn view(&self) -> ScriptEventView {
        match self {
            ScriptEvent::Head(head) => ScriptEventView::Head(opt_path(*head)),
            ScriptEvent::Text(text) => ScriptEventView::Text(opt_path(*text)),
            ScriptEvent::Provided(provided) => ScriptEventView::Provided(provided@),
            ScriptEvent::Replaced => ScriptEventView::Replaced,
        }
    }
}

/// Where the paths of a script are found in the farm.
pub open spec fn places_in(farm_root: Seq<u8>, text: Seq<u8>) -> Seq<Seq<u8>> {
    paths_in(text).map_values(|p: Seq<u8>| farm_root + p)
}

/// Whether an event can come of a step.
pub open spec fn fits(step: ScriptStepView, event: ScriptEventView) -> bool {
    match (step, event) {
        (ScriptStepView::ReadHead { .. }, ScriptEventView::Head(_)) => true,
        (ScriptStepView::ReadText { .. }, ScriptEventView::Text(_)) => true,
        (ScriptStepView::LookUp { text, .. }, ScriptEventView::Provided(provided)) =>
            provided.len() == paths_in(text).len(),
        (ScriptStepView::Replace { .. }, ScriptEventView::Replaced) => true,
        _ => false,
    }
}

/// The first step for a link of the farm. A link into the overlay leads to another place
/// of the farm, which is dealt with on its own.
pub open spec fn first_step(target: Seq<u8>, at: Seq<u8>) -> ScriptStepView {
    if lies_under(target, overlay()) {
        ScriptStepView::Done
    } else {
        ScriptStepView::ReadHead { source: target, at }
    }
}

/// The step after an event.
pub open spec fn step_after(
    farm_root: Seq<u8>,
    step: ScriptStepView,
    event: ScriptEventView,
) -> ScriptStepView {
    match (step, event) {
        (ScriptStepView::ReadHead { source, at }, ScriptEventView::Head(Some(head))) =>
            if has_script_mark(head) {
                ScriptStepView::ReadText { source, at }
            } else {
                ScriptStepView::Done
            },
        (ScriptStepView::ReadText { source, at }, ScriptEventView::Text(Some(text))) =>
            ScriptStepView::LookUp { places: places_in(farm_root, text), source, at, text },
        (
            ScriptStepView::LookUp { places: _, source, at, text },
            ScriptEventView::Provided(provided),
        ) => match rewritten_script(text, provided) {
            Some(new) => ScriptStepView::Replace { source, at, text: new },
            None => ScriptStepView::Done,
        },
        _ => ScriptStepView::Done,
    }
}

/// Whether an event can come of a step.
pub fn event_fits(step: &ScriptStep, event: &ScriptEvent) -> (r: bool)
    ensures
        r == fits(step@, event@),
{
    match (step, event) {
        (ScriptStep::ReadHead { .. }, ScriptEvent::Head(_)) => true,
        (ScriptStep::ReadText { .. }, ScriptEvent::Text(_)) => true,
        (ScriptStep::LookUp { text, .. }, ScriptEvent::Provided(provided)) => {
            let found = script_paths(text.as_slice());
            assert(found@.len() == byte_texts(found@).len());
            provided.len() == found.len()
        },
        (ScriptStep::Replace { .. }, ScriptEvent::Replaced) => true,
        _ => false,
    }
}

/// The first step for the link `at` of the farm, which points to `target`.
pub fn begin_script(target: &[u8], at: &[u8]) -> (step: ScriptStep)
    ensures
        step@ == first_step(target@, at@),
{
    if is_under(target, "/tmp/arch-run".as_bytes()) {
        ScriptStep::Done
    } else {
        ScriptStep::ReadHead { source: slice_to_vec(target), at: slice_to_vec(at) }
    }
}

/// Where the paths of a script are found in the farm.
fn script_places(farm_root: &[u8], text: &[u8]) -> (places: Vec<Vec<u8>>)
    ensures
        byte_texts(places@) == places_in(farm_root@, text@),
{
    let found = script_paths(text);
    let mut places: Vec<Vec<u8>> = Vec::new();
    for i in 0..found.len()
        invariant
            byte_texts(found@) == paths_in(text@),
            byte_texts(places@) == places_in(farm_root@, text@).take(i as int),
    {
        let ghost before = byte_texts(places@);
        assert(byte_texts(found@)[i as int] == found@[i as int]@);
        let place = place_in_farm(farm_root, found[i].as_slice());
        places.push(place);
        assert(byte_texts(places@) =~= before.push(place@));
        assert(places_in(farm_root@, text@).take(i + 1) =~= before.push(place@));
    }
    assert(found@.len() == byte_texts(found@).len());
    assert(places_in(farm_root@, text@).take(found@.len() as int) =~= places_in(
        farm_root@,
        text@,
    ));
    places
}

/// The step after an event.
pub fn advance_script(farm_root: &[u8], step: ScriptStep, event: ScriptEvent) -> (next: ScriptStep)
    requires
        fits(step@, event@),
    ensures
        next@ == step_after(farm_root@, step@, event@),
{
    match step {
        ScriptStep::ReadHead { source, at } => match event {
            ScriptEvent::Head(Some(head)) => if may_be_script(head.as_slice()) {
                ScriptStep::ReadText { source, at }
            } else {
                ScriptStep::Done
            },
            _ => ScriptStep::Done,
        },
        ScriptStep::ReadText { source, at } => match event {
            ScriptEvent::Text(Some(text)) => {
                let places = script_places(farm_root, text.as_slice());
                ScriptStep::LookUp { places, source, at, text }
            },
            _ => ScriptStep::Done,
        },
        ScriptStep::LookUp { places: _, source, at, text } => match event {
            ScriptEvent::Provided(provided) => match rewrite_script(
                text.as_slice(),
                provided.as_slice(),
            ) {
                Some(new) => ScriptStep::Replace { source, at, text: new },
                None => ScriptStep::Done,
            },
            _ => ScriptStep::Done,
        },
        _ => ScriptStep::Done,
    }
}

/// A path of a script has, in the farm, its own components.
pub proof fn law_place_in_farm(farm_root: Seq<u8>, path: Seq<u8>)
    requires
        farm_root.len() > 0,
        is_absolute(path),
    ensures
        components(farm_root + path) == components(farm_root) + components(path).skip(1),
{
    law_append_absolute(farm_root, path);
}

/// How far the first `k` insertions shift what follows them.
pub open spec fn shift(provided: Seq<bool>, k: int) -> int
    decreases k,
{
    if k <= 0 {
        0
    } else {
        shift(provided, k - 1) + inserted_at(provided[k - 1]).len()
    }
}

/// Whether places in a text come in their order.
pub open spec fn are_places(s: Seq<u8>, starts: Seq<int>) -> bool {
    &&& forall|k: int| 0 <= k < starts.len() ==> 0 <= #[trigger] starts[k] <= s.len()
    &&& forall|k: int, l: int|
        0 <= k < l < starts.len() ==> #[trigger] starts[k] < #[trigger] starts[l]
}

proof fn lemma_shift_front(provided: Seq<bool>, k: int)
    requires
        k < provided.len(),
    ensures
        shift(provided.drop_last(), k) == shift(provided, k),
    decreases k,
{
    if k > 0 {
        lemma_shift_front(provided, k - 1);
    }
}

proof fn lemma_with_overlay_len(s: Seq<u8>, starts: Seq<int>, provided: Seq<bool>)
    requires
        are_places(s, starts),
        starts.len() == provided.len(),
    ensures
        with_overlay(s, starts, provided).len() == s.len() + shift(provided, starts.len() as int),
    decreases starts.len(),
{
    if starts.len() > 0 {
        let last = starts.last();
        lemma_front_places(s, starts);
        lemma_with_overlay_len(s.take(last), starts.drop_last(), provided.drop_last());
        lemma_shift_front(provided, starts.len() - 1);
    }
}

proof fn lemma_front_places(s: Seq<u8>, starts: Seq<int>)
    requires
        are_places(s, starts),
        starts.len() > 0,
    ensures
        are_places(s.take(starts.last()), starts.drop_last()),
{
    let front = starts.drop_last();
    assert forall|k: int| 0 <= k < front.len() implies 0 <= #[trigger] front[k] <= s.take(
        starts.last(),
    ).len() by {
        assert(front[k] == starts[k] && starts[k] < starts[starts.len() - 1]);
    }
    assert forall|k: int, l: int| 0 <= k < l < front.len() implies #[trigger] front[k]
        < #[trigger] front[l] by {
        assert(starts[k] < starts[l]);
    }
}

/// Every byte is kept, behind the insertions in front of it.
proof fn lemma_kept(s: Seq<u8>, starts: Seq<int>, provided: Seq<bool>, k: int, j: int)
    requires
        are_places(s, starts),
        starts.len() == provided.len(),
        0 <= k <= starts.len(),
        0 <= j < s.len(),
        k > 0 ==> starts[k - 1] <= j,
        k < starts.len() ==> j < starts[k],
    ensures
        0 <= j + shift(provided, k) < with_overlay(s, starts, provided).len(),
        with_overlay(s, starts, provided)[j + shift(provided, k)] == s[j],
    decreases starts.len(),
{
    lemma_with_overlay_len(s, starts, provided);
    if starts.len() > 0 {
        let n = starts.len() as int;
        let last = starts.last();
        lemma_front_places(s, starts);
        lemma_with_overlay_len(s.take(last), starts.drop_last(), provided.drop_last());
        lemma_shift_front(provided, n - 1);
        if k < n {
            assert(j < last) by {
                if k < n - 1 {
                    assert(starts[k] < starts[n - 1]);
                }
            }
            lemma_kept(s.take(last), starts.drop_last(), provided.drop_last(), k, j);
            lemma_shift_front(provided, k);
        }
    }
}

/// What is inserted stands in front of its place.
proof fn lemma_inserted(s: Seq<u8>, starts: Seq<int>, provided: Seq<bool>, k: int)
    requires
        are_places(s, starts),
        starts.len() == provided.len(),
        0 <= k < starts.len(),
    ensures
        0 <= starts[k] + shift(provided, k),
        starts[k] + shift(provided, k + 1) <= with_overlay(s, starts, provided).len(),
        with_overlay(s, starts, provided).subrange(
            starts[k] + shift(provided, k),
            starts[k] + shift(provided, k + 1),
        ) == inserted_at(provided[k]),
    decreases starts.len(),
{
    let n = starts.len() as int;
    let last = starts.last();
    let front = with_overlay(s.take(last), starts.drop_last(), provided.drop_last());
    let whole = with_overlay(s, starts, provided);
    lemma_front_places(s, starts);
    lemma_with_overlay_len(s.take(last), starts.drop_last(), provided.drop_last());
    lemma_with_overlay_len(s, starts, provided);
    lemma_shift_front(provided, n - 1);
    if k == n - 1 {
        let here = front.len() as int;
        assert(whole.subrange(here, here + inserted_at(provided[k]).len()) =~= inserted_at(
            provided[k],
        ));
    } else {
        lemma_inserted(s.take(last), starts.drop_last(), provided.drop_last(), k);
        lemma_shift_front(provided, k);
        lemma_shift_front(provided, k + 1);
        let a = starts[k] + shift(provided, k);
        let b = starts[k] + shift(provided, k + 1);
        assert(whole.subrange(a, b) =~= front.subrange(a, b));
    }
}

/// No path starts within another one.
proof fn lemma_no_path_within(s: Seq<u8>, i: int, j: int)
    requires
        0 <= i < j < i + path_len(s, i),
    ensures
        !starts_path(s, j),
        j < s.len(),
    decreases j - i,
{
    if j == i + 1 {
        assert(path_len(s, i) == 1 + path_len(s, i + 1));
        assert(!ends_path(s[i]));
    } else {
        lemma_no_path_within(s, i + 1, j);
    }
}

proof fn lemma_path_within(s: Seq<u8>, i: int)
    requires
        0 <= i <= s.len(),
    ensures
        i + path_len(s, i) <= s.len(),
    decreases s.len() - i,
{
    if i < s.len() && !ends_path(s[i]) {
        lemma_path_within(s, i + 1);
    }
}

proof fn lemma_starts_are_places(s: Seq<u8>)
    ensures
        are_places(s, path_starts(s)),
{
    lemma_starts_below(s, s.len() as int);
}

/// A byte of a path lies in front of the next path.
proof fn lemma_in_front_of_next(s: Seq<u8>, k: int, j: int)
    requires
        0 <= k < path_starts(s).len(),
        path_starts(s)[k] <= j < path_starts(s)[k] + path_len(s, path_starts(s)[k]),
    ensures
        j < s.len(),
        k + 1 < path_starts(s).len() ==> j < path_starts(s)[k + 1],
{
    let starts = path_starts(s);
    lemma_starts_below(s, s.len() as int);
    lemma_path_within(s, starts[k]);
    if k + 1 < starts.len() {
        let next = starts[k + 1];
        assert(starts[k] < next && starts_path(s, next));
        if next <= j {
            lemma_no_path_within(s, starts[k], next);
        }
    }
}

/// A path is kept whole, behind what is inserted in front of it.
proof fn lemma_path_kept(s: Seq<u8>, provided: Seq<bool>, k: int)
    requires
        provided.len() == path_starts(s).len(),
        0 <= k < provided.len(),
    ensures
        ({
            let starts = path_starts(s);
            let path = path_at(s, starts[k]);
            let from = starts[k] + shift(provided, k + 1);
            let text = with_overlay(s, starts, provided);
            &&& 0 <= from <= from + path.len() <= text.len()
            &&& text.subrange(from, from + path.len()) == path
        }),
{
    let starts = path_starts(s);
    let i = starts[k];
    let path = path_at(s, i);
    let from = i + shift(provided, k + 1);
    let text = with_overlay(s, starts, provided);
    lemma_starts_are_places(s);
    assert(0 <= i <= s.len());
    lemma_path_within(s, i);
    lemma_inserted(s, starts, provided, k);
    assert forall|j: int| 0 <= j < path.len() implies from + j < text.len() && #[trigger] path[j]
        == text[from + j] by {
        lemma_in_front_of_next(s, k, i + j);
        lemma_kept(s, starts, provided, k + 1, i + j);
    }
    if path.len() > 0 {
        assert(path[path.len() - 1] == text[from + (path.len() - 1)]);
    }
    assert(text.subrange(from, from + path.len()) =~= path);
}

/// In a rewritten script a path that the overlay provides leads there: the overlay's
/// path stands in front of it, and the path behind that is whole.
pub proof fn law_script_calls_the_overlay(s: Seq<u8>, provided: Seq<bool>, k: int)
    requires
        provided.len() == path_starts(s).len(),
        0 <= k < provided.len(),
        provided[k],
    ensures
        ({
            let path = paths_in(s)[k];
            let at = path_starts(s)[k] + shift(provided, k);
            let text = rewritten_script(s, provided)->0;
            &&& rewritten_script(s, provided) is Some
            &&& 0 <= at <= at + overlay().len() + path.len() <= text.len()
            &&& text.subrange(at, at + overlay().len() + path.len()) == overlay() + path
        }),
{
    let starts = path_starts(s);
    let path = paths_in(s)[k];
    let at = starts[k] + shift(provided, k);
    let text = with_overlay(s, starts, provided);
    let mid = at + overlay().len();
    let end = mid + path.len();
    assert(provided.contains(true));
    lemma_starts_are_places(s);
    lemma_inserted(s, starts, provided, k);
    lemma_path_kept(s, provided, k);
    assert(path == path_at(s, starts[k]));
    assert(mid == starts[k] + shift(provided, k + 1));
    assert(text.subrange(at, end) =~= text.subrange(at, mid) + text.subrange(mid, end));
}

/// In a rewritten script everything else stays: each byte is there, behind what was
/// inserted in front of it, and nothing else was.
pub proof fn law_script_keeps_its_text(s: Seq<u8>, provided: Seq<bool>, k: int, j: int)
    requires
        provided.len() == path_starts(s).len(),
        provided.contains(true),
        0 <= k <= provided.len(),
        0 <= j < s.len(),
        k > 0 ==> path_starts(s)[k - 1] <= j,
        k < provided.len() ==> j < path_starts(s)[k],
    ensures
        ({
            let text = rewritten_script(s, provided)->0;
            &&& text.len() == s.len() + shift(provided, provided.len() as int)
            &&& text[j + shift(provided, k)] == s[j]
        }),
{
    lemma_starts_are_places(s);
    lemma_with_overlay_len(s, path_starts(s), provided);
    lemma_kept(s, path_starts(s), provided, k, j);
}

/// A file that is no shell script is never rewritten.
pub proof fn law_other_files_stay(s: Seq<u8>, provided: Seq<bool>)
    requires
        !is_shell_script(s),
        provided.len() == paths_in(s).len(),
    ensures
        rewritten_script(s, provided) is None,
{
}

/// The bytes behind which a word can start: white space and ``=:;&|<>({,!``.
pub open spec fn word_openers() -> Seq<u8> {
    seq![32u8, 9, 10, 13, 61, 58, 59, 38, 124, 60, 62, 40, 123, 44, 33]
}

/// The further bytes that end a path: the quotes and ``)}$*?[]\``.
pub open spec fn path_enders() -> Seq<u8> {
    seq![34u8, 39, 96, 41, 125, 36, 42, 63, 91, 93, 92]
}

/// Which bytes open a word, quote it and end a path.
pub proof fn law_bytes_of_words(b: u8)
    ensures
        opens_word(b) <==> word_openers().contains(b),
        ends_path(b) <==> word_openers().contains(b) || path_enders().contains(b),
        is_quote(b) <==> b == 34 || b == 39 || b == 96,
        is_blank(b) <==> b == 32 || b == 9,
{
    let o = word_openers();
    let e = path_enders();
    assert(o[0] == 32 && o[1] == 9 && o[2] == 10 && o[3] == 13 && o[4] == 61 && o[5] == 58 && o[6]
        == 59 && o[7] == 38);
    assert(o[8] == 124 && o[9] == 60 && o[10] == 62 && o[11] == 40 && o[12] == 123 && o[13] == 44
        && o[14] == 33);
    assert(e[0] == 34 && e[1] == 39 && e[2] == 96 && e[3] == 41 && e[4] == 125 && e[5] == 36);
    assert(e[6] == 42 && e[7] == 63 && e[8] == 91 && e[9] == 93 && e[10] == 92);
}

/// Whether all bytes from `k` to `i` are quotes.
pub open spec fn are_quotes(s: Seq<u8>, k: int, i: int) -> bool {
    forall|j: int| k <= j < i ==> is_quote(#[trigger] s[j])
}

/// A word can start exactly where the text does or behind a byte that opens one, with
/// nothing but quotes between.
pub proof fn law_words_start_behind_openers(s: Seq<u8>, i: int)
    requires
        0 <= i <= s.len(),
    ensures
        is_opened(s, i) <==> exists|k: int|
            0 <= k <= i && #[trigger] are_quotes(s, k, i) && (k == 0 || word_openers().contains(
                s[k - 1],
            )),
    decreases i,
{
    if i > 0 {
        let b = s[i - 1];
        law_bytes_of_words(b);
        if is_quote(b) {
            law_words_start_behind_openers(s, i - 1);
            if is_opened(s, i - 1) {
                let k = choose|k: int|
                    0 <= k <= i - 1 && #[trigger] are_quotes(s, k, i - 1) && (k == 0
                        || word_openers().contains(s[k - 1]));
                assert(are_quotes(s, k, i));
            }
            if exists|k: int|
                0 <= k <= i && #[trigger] are_quotes(s, k, i) && (k == 0 || word_openers().contains(
                    s[k - 1],
                )) {
                let k = choose|k: int|
                    0 <= k <= i && #[trigger] are_quotes(s, k, i) && (k == 0
                        || word_openers().contains(s[k - 1]));
                assert(k < i);
                assert(are_quotes(s, k, i - 1));
            }
        } else {
            if opens_word(b) {
                assert(are_quotes(s, i, i));
            }
            if exists|k: int|
                0 <= k <= i && #[trigger] are_quotes(s, k, i) && (k == 0 || word_openers().contains(
                    s[k - 1],
                )) {
                let k = choose|k: int|
                    0 <= k <= i && #[trigger] are_quotes(s, k, i) && (k == 0
                        || word_openers().contains(s[k - 1]));
                if k < i {
                    assert(is_quote(s[i - 1]));
                }
            }
        }
    } else {
        assert(are_quotes(s, 0, 0));
    }
}

/// A path goes on to the first byte that ends it, however far that is, or to the end of
/// the text.
pub proof fn law_path_goes_on_to_its_end(s: Seq<u8>, i: int, n: nat)
    requires
        0 <= i,
        i + n <= s.len(),
        forall|j: int|
            i <= j < i + n ==> !word_openers().contains(#[trigger] s[j]) && !path_enders().contains(
                s[j],
            ),
        i + n < s.len() ==> word_openers().contains(s[i + n]) || path_enders().contains(s[i + n]),
    ensures
        path_len(s, i) == n,
        path_at(s, i) == s.subrange(i, i + n),
    decreases n,
{
    if i < s.len() {
        law_bytes_of_words(s[i]);
    }
    if n > 0 {
        assert(!word_openers().contains(s[i]));
        law_path_goes_on_to_its_end(s, i + 1, (n - 1) as nat);
    }
}

proof fn lemma_starts_below_hold(s: Seq<u8>, n: int, i: int)
    ensures
        starts_below(s, n).contains(i) <==> 0 <= i < n && starts_path(s, i),
    decreases n,
{
    if n > 0 {
        lemma_starts_below_hold(s, n - 1, i);
        let front = starts_below(s, n - 1);
        let all = starts_below(s, n);
        if front.contains(i) {
            let k = choose|k: int| 0 <= k < front.len() && front[k] == i;
            assert(all[k] == i);
        }
        if starts_path(s, n - 1) {
            assert(all[all.len() - 1] == n - 1);
        }
        if all.contains(i) {
            let k = choose|k: int| 0 <= k < all.len() && all[k] == i;
            if k < front.len() {
                assert(front[k] == i);
            }
        }
    }
}

/// The paths of a shell script that are looked at start exactly at the separators where a
/// word can start and that begin a path whose first name is one of the system's
/// directories'; each is found once, in the order of the text, and taken whole.
pub proof fn law_every_system_path_is_found(s: Seq<u8>, i: int, k: int, l: int)
    requires
        is_shell_script(s),
    ensures
        path_starts(s).contains(i) <==> {
            &&& 0 <= i < s.len()
            &&& s[i] == 47
            &&& is_opened(s, i)
            &&& components(path_at(s, i)).len() > 1
            &&& system_names().contains(components(path_at(s, i))[1])
        },
        0 <= k < l < path_starts(s).len() ==> path_starts(s)[k] < path_starts(s)[l],
        paths_in(s).len() == path_starts(s).len(),
        0 <= k < path_starts(s).len() ==> paths_in(s)[k] == path_at(s, path_starts(s)[k]),
{
    lemma_starts_below_hold(s, s.len() as int, i);
    lemma_starts_below(s, s.len() as int);
    let path = path_at(s, i);
    law_system_path_is_told_by_its_first_name(path);
    if 0 <= i < s.len() && s[i] == 47 {
        lemma_path_within(s, i);
        law_bytes_of_words(47);
        assert(!opens_word(47));
        assert(path_len(s, i) >= 1);
        assert(path[0] == 47);
    }
}

/// The names of the shells.
pub open spec fn shell_names() -> Seq<Seq<u8>> {
    seq![
        encode_utf8("sh"@),
        encode_utf8("bash"@),
        encode_utf8("dash"@),
        encode_utf8("ash"@),
        encode_utf8("ksh"@),
        encode_utf8("zsh"@),
    ]
}

/// Whether a text is `#!`, then something in the same line that is empty or ends with a
/// blank or a separator, then the name, and then the end, a blank or a line feed.
pub open spec fn is_script_for(s: Seq<u8>, before: Seq<u8>, name: Seq<u8>, behind: Seq<u8>) -> bool {
    &&& s == seq![35u8, 33u8] + before + name + behind
    &&& forall|k: int| 0 <= k < before.len() ==> #[trigger] before[k] != 10
    &&& before.len() == 0 || before[before.len() - 1] == 32 || before[before.len() - 1] == 9
        || before[before.len() - 1] == 47
    &&& behind.len() == 0 || behind[0] == 32 || behind[0] == 9 || behind[0] == 10
}

proof fn lemma_shell_names()
    ensures
        forall|i: int| 0 <= i < shell_names().len() ==> (#[trigger] shell_names()[i]).len() > 0,
        shell_names().contains(encode_utf8("sh"@)),
        shell_names().contains(encode_utf8("bash"@)),
        shell_names().contains(encode_utf8("dash"@)),
        shell_names().contains(encode_utf8("ash"@)),
        shell_names().contains(encode_utf8("ksh"@)),
        shell_names().contains(encode_utf8("zsh"@)),
{
    reveal_strlit("sh");
    reveal_strlit("bash");
    reveal_strlit("dash");
    reveal_strlit("ash");
    reveal_strlit("ksh");
    reveal_strlit("zsh");
    is_ascii_chars_encode_utf8("sh"@);
    is_ascii_chars_encode_utf8("bash"@);
    is_ascii_chars_encode_utf8("dash"@);
    is_ascii_chars_encode_utf8("ash"@);
    is_ascii_chars_encode_utf8("ksh"@);
    is_ascii_chars_encode_utf8("zsh"@);
    let all = shell_names();
    assert(all[0] == encode_utf8("sh"@));
    assert(all[1] == encode_utf8("bash"@));
    assert(all[2] == encode_utf8("dash"@));
    assert(all[3] == encode_utf8("ash"@));
    assert(all[4] == encode_utf8("ksh"@));
    assert(all[5] == encode_utf8("zsh"@));
}

/// Every text whose first line names a shell behind `#!` is a shell script, whatever
/// stands around the name.
pub proof fn law_named_shell_makes_a_script(
    s: Seq<u8>,
    before: Seq<u8>,
    name: Seq<u8>,
    behind: Seq<u8>,
)
    requires
        shell_names().contains(name),
        is_script_for(s, before, name, behind),
    ensures
        is_shell_script(s),
{
    lemma_shell_names();
    let i = 2int + before.len();
    let end = i + name.len();
    assert(name.len() > 0) by {
        let k = choose|k: int| 0 <= k < shell_names().len() && shell_names()[k] == name;
        assert(shell_names()[k].len() > 0);
    }
    assert(s[0] == 35 && s[1] == 33);
    assert(s.subrange(i, end) =~= name);
    if before.len() > 0 {
        assert(s[i - 1] == before[before.len() - 1]);
    }
    if behind.len() > 0 {
        assert(s[end] == behind[0]);
    }
    assert(stands_at(s, i, name));
    assert forall|k: int| 0 <= k < i implies #[trigger] s[k] != LINE_FEED by {
        if k >= 2 {
            assert(s[k] == before[k - 2]);
        }
    }
    assert(is_in_first_line(s, i));
    assert(names_shell(s, i));
}

/// Nothing else is a shell script.
pub proof fn law_script_names_a_shell(s: Seq<u8>)
    requires
        is_shell_script(s),
    ensures
        exists|before: Seq<u8>, name: Seq<u8>, behind: Seq<u8>|
            shell_names().contains(name) && #[trigger] is_script_for(s, before, name, behind),
{
    lemma_shell_names();
    let i = choose|i: int|
        0 <= i < s.len() && is_in_first_line(s, i) && #[trigger] names_shell(s, i);
    let name = if stands_at(s, i, encode_utf8("sh"@)) {
        encode_utf8("sh"@)
    } else if stands_at(s, i, encode_utf8("bash"@)) {
        encode_utf8("bash"@)
    } else if stands_at(s, i, encode_utf8("dash"@)) {
        encode_utf8("dash"@)
    } else if stands_at(s, i, encode_utf8("ash"@)) {
        encode_utf8("ash"@)
    } else if stands_at(s, i, encode_utf8("ksh"@)) {
        encode_utf8("ksh"@)
    } else {
        encode_utf8("zsh"@)
    };
    assert(stands_at(s, i, name));
    let end = i + name.len();
    let before = s.subrange(2, i);
    let behind = s.skip(end);
    assert forall|k: int| 0 <= k < s.len() implies s[k] == (seq![35u8, 33u8] + before + name
        + behind)[k] by {
        if i <= k < end {
            assert(s.subrange(i, end)[k - i] == s[k]);
        }
    }
    assert(s =~= seq![35u8, 33u8] + before + name + behind);
    assert forall|k: int| 0 <= k < before.len() implies #[trigger] before[k] != 10 by {
        assert(before[k] == s[k + 2]);
    }
    assert(is_script_for(s, before, name, behind));
}

/// A script is rewritten exactly if the overlay provides one of its paths, and what is set
/// in front of a path is `/tmp/arch-run`.
pub proof fn law_script_is_rewritten_where_it_helps(s: Seq<u8>, provided: Seq<bool>)
    ensures
        rewritten_script(s, provided) is Some <==> exists|k: int|
            0 <= k < provided.len() && #[trigger] provided[k],
        overlay() == encode_utf8("/tmp/arch-run"@),
        inserted_at(true) == encode_utf8("/tmp/arch-run"@),
        inserted_at(false).len() == 0,
{
    if exists|k: int| 0 <= k < provided.len() && #[trigger] provided[k] {
        let k = choose|k: int| 0 <= k < provided.len() && #[trigger] provided[k];
        assert(provided[k] == true);
    }
}

/// A link of the farm is read unless it leads into the overlay, its text only where that
/// starts with `#!`; each of its paths is looked up at the same path below the farm; and
/// the rewritten text takes its place.
pub proof fn law_steps_for_a_link(
    farm_root: Seq<u8>,
    target: Seq<u8>,
    at: Seq<u8>,
    head: Seq<u8>,
    text: Seq<u8>,
    provided: Seq<bool>,
    k: int,
)
    ensures
        ({
            let read = ScriptStepView::ReadHead { source: target, at };
            let whole = ScriptStepView::ReadText { source: target, at };
            let look = ScriptStepView::LookUp {
                places: places_in(farm_root, text),
                source: target,
                at,
                text,
            };
            let overlay_path = encode_utf8("/tmp/arch-run"@);
            &&& lies_under(target, overlay_path) ==> first_step(target, at) is Done
            &&& !lies_under(target, overlay_path) ==> first_step(target, at) == read
            &&& step_after(farm_root, read, ScriptEventView::Head(None)) is Done
            &&& step_after(farm_root, read, ScriptEventView::Head(Some(head))) == (if head.len() >= 2
                && head[0] == 35 && head[1] == 33 {
                whole
            } else {
                ScriptStepView::Done
            })
            &&& step_after(farm_root, whole, ScriptEventView::Text(None)) is Done
            &&& step_after(farm_root, whole, ScriptEventView::Text(Some(text))) == look
            &&& places_in(farm_root, text).len() == paths_in(text).len()
            &&& 0 <= k < paths_in(text).len() ==> places_in(farm_root, text)[k] == farm_root
                + paths_in(text)[k]
            &&& step_after(farm_root, look, ScriptEventView::Provided(provided)) == (
            match rewritten_script(text, provided) {
                Some(new) => ScriptStepView::Replace { source: target, at, text: new },
                None => ScriptStepView::Done,
            })
            &&& step_after(
                farm_root,
                ScriptStepView::Replace { source: target, at, text },
                ScriptEventView::Replaced,
            ) is Done
        }),
{
}

/// Which events can come of which steps.
pub proof fn law_events_of_steps(
    places: Seq<Seq<u8>>,
    source: Seq<u8>,
    at: Seq<u8>,
    text: Seq<u8>,
    provided: Seq<bool>,
    event: ScriptEventView,
)
    ensures
        fits(ScriptStepView::ReadHead { source, at }, event) <==> event is Head,
        fits(ScriptStepView::ReadText { source, at }, event) <==> event is Text,
        fits(
            ScriptStepView::LookUp { places, source, at, text },
            ScriptEventView::Provided(provided),
        ) <==> provided.len() == paths_in(text).len(),
        fits(ScriptStepView::Replace { source, at, text }, event) <==> event is Replaced,
        !fits(ScriptStepView::Done, event),
{
}

/// A step and an event are known by all that they hold.
pub proof fn law_steps_are_known_by_all_they_hold(
    a: Vec<u8>,
    b: Vec<u8>,
    c: Vec<u8>,
    places: Vec<Vec<u8>>,
    provided: Vec<bool>,
)
    ensures
        (ScriptStep::ReadHead { source: a, at: b })@ == (ScriptStepView::ReadHead {
            source: a@,
            at: b@,
        }),
        (ScriptStep::ReadText { source: a, at: b })@ == (ScriptStepView::ReadText {
            source: a@,
            at: b@,
        }),
        (ScriptStep::LookUp { places, source: a, at: b, text: c })@ == (ScriptStepView::LookUp {
            places: byte_texts(places@),
            source: a@,
            at: b@,
            text: c@,
        }),
        (ScriptStep::Replace { source: a, at: b, text: c })@ == (ScriptStepView::Replace {
            source: a@,
            at: b@,
            text: c@,
        }),
        ScriptStep::Done@ is Done,
        ScriptEvent::Head(Some(a))@ == ScriptEventView::Head(Some(a@)),
        ScriptEvent::Head(None)@ == ScriptEventView::Head(None),
        ScriptEvent::Text(Some(a))@ == ScriptEventView::Text(Some(a@)),
        ScriptEvent::Text(None)@ == ScriptEventView::Text(None),
        ScriptEvent::Provided(provided)@ == ScriptEventView::Provided(provided@),
        ScriptEvent::Replaced@ is Replaced,
{
}

} // verus!
