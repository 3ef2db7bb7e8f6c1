//! The symlink farm: one directory tree that merges all package layers.
//!
//! Directories of a layer become directories of the farm, everything else becomes a
//! symbolic link to the layer's own file. An entry that is itself a link to an absolute
//! path into the system's directories becomes a link to the same path under the overlay,
//! where the farm is found inside the sandbox.

use crate::paths::{
    absolute, after_segment, append_bytes, body, components, is_absolute, is_clean, is_one_part,
    is_under, join, join_path, law_append_absolute, law_components_are_parted_by_separators,
    law_directory_seen_from_itself, law_join_components, law_join_then_relative,
    law_joining_sets_one_separator, law_relative_components, lemma_encode_concat, lemma_segment_len,
    lies_under, opt_path, relative_to, segment_len, strip_base, DOT, SEPARATOR,
};
use vstd::prelude::*;
use vstd::slice::slice_to_vec;
use vstd::utf8::{encode_utf8, is_ascii_chars, is_ascii_chars_encode_utf8};

verus! {

/// What becomes of an entry of a layer.
#[derive(Debug)]
pub enum Placement {
    /// Nothing.
    Skip,
    /// A directory of the farm.
    Directory { at: Vec<u8> },
    /// A link in the farm.
    Link { at: Vec<u8> },
}

/// What a placement holds.
pub enum PlacementView {
    Skip,
    Directory { at: Seq<u8> },
    Link { at: Seq<u8> },
}

impl View for Placement {
    type V = PlacementView;

    open spec fn view(&self) -> PlacementView {
        match self {
            Placement::Skip => PlacementView::Skip,
            Placement::Directory { at } => PlacementView::Directory { at: at@ },
            Placement::Link { at } => PlacementView::Link { at: at@ },
        }
    }
}

/// The place of an entry: the one that it has in its layer, seen from the farm. The
/// layer's own directory has none.
pub open spec fn placement(
    farm_root: Seq<u8>,
    layer_path: Seq<u8>,
    entry_path: Seq<u8>,
    is_dir: bool,
) -> PlacementView {
    match relative_to(entry_path, layer_path) {
        Some(rel) => if rel.len() == 0 {
            PlacementView::Skip
        } else if is_dir {
            PlacementView::Directory { at: join(farm_root, rel) }
        } else {
            PlacementView::Link { at: join(farm_root, rel) }
        },
        None => PlacementView::Skip,
    }
}

/// Where the farm is found inside the sandbox.
pub open spec fn overlay_root() -> Seq<char> {
    "/tmp/arch-run"@
}

/// Whether a link's target is an absolute path into the system's directories.
pub open spec fn is_system_path(target: Seq<u8>) -> bool {
    &&& is_absolute(target)
    &&& {
        ||| lies_under(target, encode_utf8("/usr/"@))
        ||| lies_under(target, encode_utf8("/etc/"@))
        ||| lies_under(target, encode_utf8("/lib/"@))
        ||| lies_under(target, encode_utf8("/lib64/"@))
        ||| lies_under(target, encode_utf8("/var/"@))
        ||| lies_under(target, encode_utf8("/opt/"@))
        ||| lies_under(target, encode_utf8("/sbin/"@))
    }
}

/// The path under the overlay that replaces a link's target, where one does.
pub open spec fn rewritten(target: Seq<u8>) -> Option<Seq<u8>> {
    if is_system_path(target) {
        Some(encode_utf8(overlay_root()) + target)
    } else {
        None
    }
}

/// The target of the link that a layer's entry gets: the entry itself, unless the farm
/// has something at its place already.
pub open spec fn first_target(entry_path: Seq<u8>, taken: bool) -> Option<Seq<u8>> {
    if taken {
        None
    } else {
        Some(entry_path)
    }
}

/// The target that a new link is changed to, if it is: the rewritten target of the
/// layer's own entry, where that is a link.
pub open spec fn second_target(source_link: Option<Seq<u8>>) -> Option<Seq<u8>> {
    match source_link {
        Some(target) => rewritten(target),
        None => None,
    }
}

/// The place of an entry of a layer in the farm.
pub fn place_entry(
    farm_root: &[u8],
    layer_path: &[u8],
    entry_path: &[u8],
    is_dir: bool,
) -> (p: Placement)
    ensures
        p@ == placement(farm_root@, layer_path@, entry_path@, is_dir),
{
    match strip_base(entry_path, layer_path) {
        Some(rel) => if rel.len() == 0 {
            Placement::Skip
        } else {
            let at = join_path(farm_root, rel.as_slice());
            if is_dir {
                Placement::Directory { at }
            } else {
                Placement::Link { at }
            }
        },
        None => Placement::Skip,
    }
}

/// The target of the link that an entry gets, if it gets one.
pub fn link_target(entry_path: &[u8], taken: bool) -> (target: Option<Vec<u8>>)
    ensures
        opt_path(target) == first_target(entry_path@, taken),
{
    if taken {
        None
    } else {
        Some(slice_to_vec(entry_path))
    }
}

/// Whether a link's target is an absolute path into the system's directories.
pub fn points_into_system(target: &[u8]) -> (r: bool)
    ensures
        r == is_system_path(target@),
{
    absolute(target) && (is_under(target, "/usr/".as_bytes()) || is_under(
        target,
        "/etc/".as_bytes(),
    ) || is_under(target, "/lib/".as_bytes()) || is_under(target, "/lib64/".as_bytes())
        || is_under(target, "/var/".as_bytes()) || is_under(target, "/opt/".as_bytes())
        || is_under(target, "/sbin/".as_bytes()))
}

/// The path under the overlay for an absolute path.
pub fn overlay_path(path: &[u8]) -> (out: Vec<u8>)
    ensures
        out@ == encode_utf8(overlay_root()) + path@,
{
    let mut out = slice_to_vec("/tmp/arch-run".as_bytes());
    append_bytes(&mut out, path);
    out
}

/// The path under the overlay that replaces a link's target, where one does.
pub fn rewrite_target(target: &[u8]) -> (path: Option<Vec<u8>>)
    ensures
        opt_path(path) == rewritten(target@),
{
    if points_into_system(target) {
        Some(overlay_path(target))
    } else {
        None
    }
}

/// The target that a new link is changed to, if it is. `source_link` is where the
/// layer's own entry points, if that is a link.
pub fn relink_target(source_link: &Option<Vec<u8>>) -> (target: Option<Vec<u8>>)
    ensures
        opt_path(target) == second_target(opt_path(*source_link)),
{
    match source_link {
        Some(target) => rewrite_target(target.as_slice()),
        None => None,
    }
}

/// What is to be done next for one entry of a layer.
#[derive(Debug)]
pub enum FarmStep {
    /// Create the directory `at`, with its parents, unless there is one where links lead.
    /// A link that was created again counts for its source.
    MakeDir { at: Vec<u8> },
    /// Find out whether there is something at `at`, where links lead. A link that was
    /// created again counts for its source.
    Probe { source: Vec<u8>, at: Vec<u8> },
    /// Create the link `at`.
    Link { target: Vec<u8>, at: Vec<u8> },
    /// Read where `source` points, if it is a link.
    ReadLink { source: Vec<u8>, at: Vec<u8> },
    /// Remove the link `at` and create it again, in place of the one to `source`.
    Relink { source: Vec<u8>, target: Vec<u8>, at: Vec<u8> },
    /// The entry is dealt with.
    Done,
}

/// What came of a step.
#[derive(Debug)]
pub enum FarmEvent {
    /// The directory or the link was created.
    Made,
    /// Whether there is something at the place that was probed.
    Taken(bool),
    /// Where the layer's own entry points, if it is a link.
    Points(Option<Vec<u8>>),
}

/// What a step holds.
pub enum FarmStepView {
    MakeDir { at: Seq<u8> },
    Probe { source: Seq<u8>, at: Seq<u8> },
    Link { target: Seq<u8>, at: Seq<u8> },
    ReadLink { source: Seq<u8>, at: Seq<u8> },
    Relink { source: Seq<u8>, target: Seq<u8>, at: Seq<u8> },
    Done,
}

/// What an event holds.
pub enum FarmEventView {
    Made,
    Taken(bool),
    Points(Option<Seq<u8>>),
}

impl View for FarmStep {
    type V = FarmStepView;

    open spec fn view(&self) -> FarmStepView {
        match self {
            FarmStep::MakeDir { at } => FarmStepView::MakeDir { at: at@ },
            FarmStep::Probe { source, at } => FarmStepView::Probe { source: source@, at: at@ },
            FarmStep::Link { target, at } => FarmStepView::Link { target: target@, at: at@ },
            FarmStep::ReadLink { source, at } => FarmStepView::ReadLink {
                source: source@,
                at: at@,
            },
            FarmStep::Relink { source, target, at } => FarmStepView::Relink {
                source: source@,
                target: target@,
                at: at@,
            },
            FarmStep::Done => FarmStepView::Done,
        }
    }
}

impl View for FarmEvent {
    type V = FarmEventView;

    open spec fn view(&self) -> FarmEventView {
        match self {
            FarmEvent::Made => FarmEventView::Made,
            FarmEvent::Taken(taken) => FarmEventView::Taken(*taken),
            FarmEvent::Points(target) => FarmEventView::Points(opt_path(*target)),
        }
    }
}

/// Whether an event can come of a step.
pub open spec fn fits(step: FarmStepView, event: FarmEventView) -> bool {
    match step {
        FarmStepView::MakeDir { .. } | FarmStepView::Link { .. } | FarmStepView::Relink { .. } =>
            event is Made,
        FarmStepView::Probe { .. } => event is Taken,
        FarmStepView::ReadLink { .. } => event is Points,
        FarmStepView::Done => false,
    }
}

/// The first step for an entry.
pub open spec fn first_step(
    farm_root: Seq<u8>,
    layer_path: Seq<u8>,
    entry_path: Seq<u8>,
    is_dir: bool,
) -> FarmStepView {
    match placement(farm_root, layer_path, entry_path, is_dir) {
        PlacementView::Skip => FarmStepView::Done,
        PlacementView::Directory { at } => FarmStepView::MakeDir { at },
        PlacementView::Link { at } => FarmStepView::Probe { source: entry_path, at },
    }
}

/// The step after an event.
pub open spec fn step_after(step: FarmStepView, event: FarmEventView) -> FarmStepView {
    match (step, event) {
        (FarmStepView::Probe { source, at }, FarmEventView::Taken(taken)) => match first_target(
            source,
            taken,
        ) {
            Some(target) => FarmStepView::Link { target, at },
            None => FarmStepView::Done,
        },
        (FarmStepView::Link { target, at }, _) => FarmStepView::ReadLink { source: target, at },
        (FarmStepView::ReadLink { source, at }, FarmEventView::Points(link)) => match second_target(
            link,
        ) {
            Some(target) => FarmStepView::Relink { source, target, at },
            None => FarmStepView::Done,
        },
        _ => FarmStepView::Done,
    }
}

/// Whether an event can come of a step.
pub fn event_fits(step: &FarmStep, event: &FarmEvent) -> (r: bool)
    ensures
        r == fits(step@, event@),
{
    match (step, event) {
        (FarmStep::MakeDir { .. }, FarmEvent::Made) => true,
        (FarmStep::Link { .. }, FarmEvent::Made) => true,
        (FarmStep::Relink { .. }, FarmEvent::Made) => true,
        (FarmStep::Probe { .. }, FarmEvent::Taken(_)) => true,
        (FarmStep::ReadLink { .. }, FarmEvent::Points(_)) => true,
        _ => false,
    }
}

/// The first step for an entry of a layer.
pub fn begin_entry(
    farm_root: &[u8],
    layer_path: &[u8],
    entry_path: &[u8],
    is_dir: bool,
) -> (step: FarmStep)
    ensures
        step@ == first_step(farm_root@, layer_path@, entry_path@, is_dir),
{
    match place_entry(farm_root, layer_path, entry_path, is_dir) {
        Placement::Skip => FarmStep::Done,
        Placement::Directory { at } => FarmStep::MakeDir { at },
        Placement::Link { at } => FarmStep::Probe { source: slice_to_vec(entry_path), at },
    }
}

/// The step after an event.
pub fn advance_entry(step: FarmStep, event: FarmEvent) -> (next: FarmStep)
    requires
        fits(step@, event@),
    ensures
        next@ == step_after(step@, event@),
{
    match step {
        FarmStep::Probe { source, at } => match event {
            FarmEvent::Taken(taken) => match link_target(source.as_slice(), taken) {
                Some(target) => FarmStep::Link { target, at },
                None => FarmStep::Done,
            },
            _ => FarmStep::Done,
        },
        FarmStep::Link { target, at } => FarmStep::ReadLink { source: target, at },
        FarmStep::ReadLink { source, at } => match event {
            FarmEvent::Points(link) => match relink_target(&link) {
                Some(target) => FarmStep::Relink { source, target, at },
                None => FarmStep::Done,
            },
            _ => FarmStep::Done,
        },
        _ => FarmStep::Done,
    }
}

/// An entry that gets a place gets the one in the farm that it has in its layer.
pub proof fn law_places_mirror_the_layer(
    farm_root: Seq<u8>,
    layer_path: Seq<u8>,
    entry_path: Seq<u8>,
    is_dir: bool,
)
    requires
        farm_root.len() > 0,
        layer_path.len() > 0,
    ensures
        match placement(farm_root, layer_path, entry_path, is_dir) {
            PlacementView::Skip => true,
            PlacementView::Directory { at } => is_dir && mirrors(
                at,
                farm_root,
                entry_path,
                layer_path,
            ),
            PlacementView::Link { at } => !is_dir && mirrors(at, farm_root, entry_path, layer_path),
        },
{
    if lies_under(entry_path, layer_path) {
        let rel = relative_to(entry_path, layer_path)->0;
        law_relative_components(entry_path, layer_path);
        law_join_components(farm_root, rel);
        let at = join(farm_root, rel);
        let n = components(farm_root).len() as int;
        assert(components(farm_root) =~= components(at).subrange(0, n));
    }
}

/// Whether `at` has, under the farm, the components that the entry has under its layer.
pub open spec fn mirrors(
    at: Seq<u8>,
    farm_root: Seq<u8>,
    entry_path: Seq<u8>,
    layer_path: Seq<u8>,
) -> bool {
    &&& lies_under(at, farm_root)
    &&& components(at) == components(farm_root) + components(entry_path).skip(
        components(layer_path).len() as int,
    )
}

/// Every entry below a layer's directory gets a place, whichever of the layer's
/// directories it is in.
pub proof fn law_no_entry_is_left_out(
    farm_root: Seq<u8>,
    layer_path: Seq<u8>,
    entry_path: Seq<u8>,
    is_dir: bool,
)
    requires
        layer_path.len() > 0,
        lies_under(entry_path, layer_path),
        components(entry_path).len() > components(layer_path).len(),
    ensures
        !(placement(farm_root, layer_path, entry_path, is_dir) is Skip),
{
    law_relative_components(entry_path, layer_path);
}

proof fn lemma_ascii_bytes(s: &str)
    requires
        is_ascii_chars(s@),
    ensures
        encode_utf8(s@) == Seq::new(s@.len(), |i: int| s@[i] as u8),
{
    is_ascii_chars_encode_utf8(s@);
    assert(encode_utf8(s@) =~= Seq::new(s@.len(), |i: int| s@[i] as u8));
}

/// The overlay's own components.
pub open spec fn overlay_components() -> Seq<Seq<u8>> {
    components(encode_utf8(overlay_root()))
}

/// A rewritten target is the old one, seen from the overlay.
pub proof fn law_rewritten_target_is_in_the_overlay(target: Seq<u8>)
    requires
        is_system_path(target),
    ensures
        rewritten(target) == Some(encode_utf8(overlay_root()) + target),
        components(rewritten(target)->0) == overlay_components() + components(target).skip(1),
        lies_under(rewritten(target)->0, encode_utf8(overlay_root())),
{
    reveal_strlit("/tmp/arch-run");
    lemma_ascii_bytes("/tmp/arch-run");
    let root = encode_utf8(overlay_root());
    law_append_absolute(root, target);
    let whole = components(root + target);
    assert(components(root) =~= whole.subrange(0, components(root).len() as int));
}

/// A path of the form `/x..`, where `x` is an ordinary character, has a second
/// component, which starts with `x`.
proof fn lemma_second_component(p: Seq<u8>)
    requires
        is_absolute(p),
        p.len() > 1,
        p[1] != SEPARATOR,
        p[1] != DOT,
    ensures
        components(p).len() > 1,
        components(p)[1].len() > 0,
        components(p)[1][0] == p[1],
{
    let s = p.skip(1);
    lemma_segment_len(s);
    assert(s[0] == p[1]);
    let first = s.take(segment_len(s) as int);
    assert(first[0] == p[1]);
    assert(body(s) == seq![first] + body(after_segment(s)));
    assert(components(p)[1] == first);
}

proof fn lemma_not_under(p: Seq<u8>, dir: &str)
    requires
        is_ascii_chars(dir@),
        dir@.len() > 1,
        dir@[0] == '/',
        dir@[1] != '/',
        dir@[1] != '.',
        dir@[1] != 't',
        is_absolute(p),
        p.len() > 1,
        p[1] == 't' as u8,
    ensures
        !lies_under(p, encode_utf8(dir@)),
{
    let d = encode_utf8(dir@);
    is_ascii_chars_encode_utf8(dir@);
    assert(d[0] == '/' as u8 && d[1] == dir@[1] as u8);
    lemma_second_component(d);
    lemma_second_component(p);
    if lies_under(p, d) {
        let n = components(d).len() as int;
        assert(components(d)[1] == components(p).subrange(0, n)[1]);
    }
}

/// A rewritten target is not rewritten again.
pub proof fn law_rewriting_happens_once(target: Seq<u8>)
    requires
        is_system_path(target),
    ensures
        rewritten(rewritten(target)->0) is None,
{
    reveal_strlit("/tmp/arch-run");
    lemma_ascii_bytes("/tmp/arch-run");
    let p = rewritten(target)->0;
    assert(p[0] == '/' as u8 && p[1] == 't' as u8);
    reveal_strlit("/usr/");
    reveal_strlit("/etc/");
    reveal_strlit("/lib/");
    reveal_strlit("/lib64/");
    reveal_strlit("/var/");
    reveal_strlit("/opt/");
    reveal_strlit("/sbin/");
    lemma_not_under(p, "/usr/");
    lemma_not_under(p, "/etc/");
    lemma_not_under(p, "/lib/");
    lemma_not_under(p, "/lib64/");
    lemma_not_under(p, "/var/");
    lemma_not_under(p, "/opt/");
    lemma_not_under(p, "/sbin/");
}

/// The names of the system's directories.
pub open spec fn system_names() -> Seq<Seq<u8>> {
    seq![
        encode_utf8("usr"@),
        encode_utf8("etc"@),
        encode_utf8("lib"@),
        encode_utf8("lib64"@),
        encode_utf8("var"@),
        encode_utf8("opt"@),
        encode_utf8("sbin"@),
    ]
}

proof fn lemma_under_named(p: Seq<u8>, dir: &str, name: &str)
    requires
        is_ascii_chars(dir@),
        is_ascii_chars(name@),
        dir@ =~= seq!['/'] + name@ + seq!['/'],
        name@.len() > 1,
        forall|i: int| 0 <= i < name@.len() ==> #[trigger] name@[i] != '/',
    ensures
        encode_utf8(dir@) == seq![47u8] + encode_utf8(name@) + seq![47u8],
        is_one_part(encode_utf8(name@)),
        encode_utf8(name@).len() > 1,
        is_absolute(p) ==> (lies_under(p, encode_utf8(dir@)) <==> components(p).len() > 1
            && components(p)[1] == encode_utf8(name@)),
{
    lemma_ascii_bytes(dir);
    lemma_ascii_bytes(name);
    let d = encode_utf8(dir@);
    let n = encode_utf8(name@);
    assert(d =~= seq![47u8] + n + seq![47u8]);
    assert forall|i: int| 0 <= i < n.len() implies #[trigger] n[i] != 47 by {
        let c = name@[i];
        assert(n[i] == c as u8);
    }
    let none = Seq::<u8>::empty();
    let rooted = seq![47u8] + n;
    law_components_are_parted_by_separators(rooted, n, none);
    assert(rooted.push(47) + none =~= d);
    assert(seq![47u8] + none =~= seq![47u8]);
    law_components_are_parted_by_separators(rooted, none, none);
    assert(components(seq![47u8]) == seq![seq![47u8]]);
    assert(components(d) =~= seq![seq![47u8], n]);
    if is_absolute(p) {
        let whole = components(p);
        assert(p.take(1) =~= seq![47u8]);
        assert(whole[0] == seq![47u8]);
        if whole.len() > 1 && whole[1] == n {
            assert(components(d) =~= whole.subrange(0, 2));
        }
        if lies_under(p, d) {
            assert(whole.subrange(0, 2)[1] == n);
        }
    }
}

/// A path is one of the system's exactly if it is absolute and the first name in it is
/// that of one of the system's directories, whatever follows.
pub proof fn law_system_path_is_told_by_its_first_name(target: Seq<u8>)
    ensures
        is_system_path(target) <==> target.len() > 0 && target[0] == 47 && components(target).len()
            > 1 && system_names().contains(components(target)[1]),
{
    reveal_strlit("/usr/");
    reveal_strlit("/etc/");
    reveal_strlit("/lib/");
    reveal_strlit("/lib64/");
    reveal_strlit("/var/");
    reveal_strlit("/opt/");
    reveal_strlit("/sbin/");
    reveal_strlit("usr");
    reveal_strlit("etc");
    reveal_strlit("lib");
    reveal_strlit("lib64");
    reveal_strlit("var");
    reveal_strlit("opt");
    reveal_strlit("sbin");
    lemma_under_named(target, "/usr/", "usr");
    lemma_under_named(target, "/etc/", "etc");
    lemma_under_named(target, "/lib/", "lib");
    lemma_under_named(target, "/lib64/", "lib64");
    lemma_under_named(target, "/var/", "var");
    lemma_under_named(target, "/opt/", "opt");
    lemma_under_named(target, "/sbin/", "sbin");
    let all = system_names();
    assert(all[0] == encode_utf8("usr"@));
    assert(all[1] == encode_utf8("etc"@));
    assert(all[2] == encode_utf8("lib"@));
    assert(all[3] == encode_utf8("lib64"@));
    assert(all[4] == encode_utf8("var"@));
    assert(all[5] == encode_utf8("opt"@));
    assert(all[6] == encode_utf8("sbin"@));
}

proof fn lemma_rewritten_below(dir: &str, name: &str, full: &str, rest: Seq<u8>)
    requires
        is_ascii_chars(dir@),
        is_ascii_chars(name@),
        dir@ =~= seq!['/'] + name@ + seq!['/'],
        name@.len() > 1,
        forall|i: int| 0 <= i < name@.len() ==> #[trigger] name@[i] != '/',
        system_names().contains(encode_utf8(name@)),
        full@ =~= "/tmp/arch-run"@ + dir@,
    ensures
        rewritten(encode_utf8(dir@) + rest) == Some(encode_utf8(full@) + rest),
{
    let target = encode_utf8(dir@) + rest;
    let n = encode_utf8(name@);
    lemma_under_named(target, dir, name);
    let rooted = seq![47u8] + n;
    law_components_are_parted_by_separators(rooted, n, rest);
    assert(rooted.push(47) + rest =~= target);
    assert(components(target)[1] == n);
    law_system_path_is_told_by_its_first_name(target);
    lemma_encode_concat("/tmp/arch-run"@, dir@);
    assert(encode_utf8(overlay_root()) + target =~= encode_utf8(full@) + rest);
}

/// Every path below one of the system's directories is set to the same path below the
/// overlay, byte for byte; a relative path is not.
pub proof fn law_every_system_path_moves_to_the_overlay(rest: Seq<u8>)
    ensures
        rewritten(encode_utf8("/usr/"@) + rest) == Some(encode_utf8("/tmp/arch-run/usr/"@) + rest),
        rewritten(encode_utf8("/etc/"@) + rest) == Some(encode_utf8("/tmp/arch-run/etc/"@) + rest),
        rewritten(encode_utf8("/lib/"@) + rest) == Some(encode_utf8("/tmp/arch-run/lib/"@) + rest),
        rewritten(encode_utf8("/lib64/"@) + rest) == Some(
            encode_utf8("/tmp/arch-run/lib64/"@) + rest,
        ),
        rewritten(encode_utf8("/var/"@) + rest) == Some(encode_utf8("/tmp/arch-run/var/"@) + rest),
        rewritten(encode_utf8("/opt/"@) + rest) == Some(encode_utf8("/tmp/arch-run/opt/"@) + rest),
        rewritten(encode_utf8("/sbin/"@) + rest) == Some(
            encode_utf8("/tmp/arch-run/sbin/"@) + rest,
        ),
        rest.len() == 0 || rest[0] != 47 ==> rewritten(rest) is None,
{
    reveal_strlit("/tmp/arch-run");
    reveal_strlit("/usr/");
    reveal_strlit("/etc/");
    reveal_strlit("/lib/");
    reveal_strlit("/lib64/");
    reveal_strlit("/var/");
    reveal_strlit("/opt/");
    reveal_strlit("/sbin/");
    reveal_strlit("usr");
    reveal_strlit("etc");
    reveal_strlit("lib");
    reveal_strlit("lib64");
    reveal_strlit("var");
    reveal_strlit("opt");
    reveal_strlit("sbin");
    reveal_strlit("/tmp/arch-run/usr/");
    reveal_strlit("/tmp/arch-run/etc/");
    reveal_strlit("/tmp/arch-run/lib/");
    reveal_strlit("/tmp/arch-run/lib64/");
    reveal_strlit("/tmp/arch-run/var/");
    reveal_strlit("/tmp/arch-run/opt/");
    reveal_strlit("/tmp/arch-run/sbin/");
    let all = system_names();
    assert(all[0] == encode_utf8("usr"@));
    assert(all[1] == encode_utf8("etc"@));
    assert(all[2] == encode_utf8("lib"@));
    assert(all[3] == encode_utf8("lib64"@));
    assert(all[4] == encode_utf8("var"@));
    assert(all[5] == encode_utf8("opt"@));
    assert(all[6] == encode_utf8("sbin"@));
    lemma_rewritten_below("/usr/", "usr", "/tmp/arch-run/usr/", rest);
    lemma_rewritten_below("/etc/", "etc", "/tmp/arch-run/etc/", rest);
    lemma_rewritten_below("/lib/", "lib", "/tmp/arch-run/lib/", rest);
    lemma_rewritten_below("/lib64/", "lib64", "/tmp/arch-run/lib64/", rest);
    lemma_rewritten_below("/var/", "var", "/tmp/arch-run/var/", rest);
    lemma_rewritten_below("/opt/", "opt", "/tmp/arch-run/opt/", rest);
    lemma_rewritten_below("/sbin/", "sbin", "/tmp/arch-run/sbin/", rest);
}

/// A path that is rewritten is the old one behind the overlay's, and one is rewritten
/// exactly if it is one of the system's by its first name.
pub proof fn law_rewriting_sets_the_overlay_in_front(target: Seq<u8>)
    ensures
        rewritten(target) is Some <==> target.len() > 0 && target[0] == 47 && components(
            target,
        ).len() > 1 && system_names().contains(components(target)[1]),
        rewritten(target) matches Some(p) ==> p == encode_utf8("/tmp/arch-run"@) + target,
{
    law_system_path_is_told_by_its_first_name(target);
}

/// An entry gets, below the farm, the path that it has below its layer, byte for byte,
/// however deep it is; the layer itself and what is elsewhere get none.
pub proof fn law_place_is_the_same_path(
    farm_root: Seq<u8>,
    layer_path: Seq<u8>,
    rel: Seq<u8>,
    other: Seq<u8>,
    is_dir: bool,
)
    requires
        farm_root.len() > 0,
        farm_root[farm_root.len() - 1] != 47,
        layer_path.len() > 0,
        layer_path[layer_path.len() - 1] != 47,
        is_clean(rel),
        !lies_under(other, layer_path),
    ensures
        placement(farm_root, layer_path, layer_path.push(47) + rel, is_dir) == (if is_dir {
            PlacementView::Directory { at: farm_root.push(47) + rel }
        } else {
            PlacementView::Link { at: farm_root.push(47) + rel }
        }),
        placement(farm_root, layer_path, layer_path, is_dir) is Skip,
        placement(farm_root, layer_path, other, is_dir) is Skip,
{
    law_join_then_relative(layer_path, rel);
    law_joining_sets_one_separator(farm_root, rel);
    law_directory_seen_from_itself(layer_path);
}

/// An entry that is no directory is looked for at its place; where nothing is there it is
/// linked to, and the link is made anew exactly if the entry is itself a link to one of
/// the system's paths. A directory is made.
pub proof fn law_steps_for_an_entry(
    farm_root: Seq<u8>,
    layer_path: Seq<u8>,
    rel: Seq<u8>,
    link: Seq<u8>,
)
    requires
        farm_root.len() > 0,
        farm_root[farm_root.len() - 1] != 47,
        layer_path.len() > 0,
        layer_path[layer_path.len() - 1] != 47,
        is_clean(rel),
    ensures
        ({
            let source = layer_path.push(47) + rel;
            let at = farm_root.push(47) + rel;
            let probe = FarmStepView::Probe { source, at };
            let made = FarmStepView::Link { target: source, at };
            let read = FarmStepView::ReadLink { source, at };
            let moved = encode_utf8("/tmp/arch-run"@) + link;
            &&& first_step(farm_root, layer_path, source, true) == (FarmStepView::MakeDir { at })
            &&& first_step(farm_root, layer_path, source, false) == probe
            &&& first_step(farm_root, layer_path, layer_path, true) is Done
            &&& step_after(probe, FarmEventView::Taken(true)) is Done
            &&& step_after(probe, FarmEventView::Taken(false)) == made
            &&& step_after(made, FarmEventView::Made) == read
            &&& step_after(read, FarmEventView::Points(None)) is Done
            &&& step_after(read, FarmEventView::Points(Some(link))) == (if link.len() > 0 && link[0]
                == 47 && components(link).len() > 1 && system_names().contains(
                components(link)[1],
            ) {
                FarmStepView::Relink { source, target: moved, at }
            } else {
                FarmStepView::Done
            })
            &&& step_after(
                FarmStepView::Relink { source, target: moved, at },
                FarmEventView::Made,
            ) is Done
            &&& step_after(FarmStepView::MakeDir { at }, FarmEventView::Made) is Done
        }),
{
    law_join_then_relative(layer_path, rel);
    law_joining_sets_one_separator(farm_root, rel);
    law_directory_seen_from_itself(layer_path);
    law_rewriting_sets_the_overlay_in_front(link);
}

/// Which events can come of which steps.
pub proof fn law_events_of_steps(source: Seq<u8>, at: Seq<u8>, event: FarmEventView)
    ensures
        fits(FarmStepView::MakeDir { at }, event) <==> event is Made,
        fits(FarmStepView::Link { target: source, at }, event) <==> event is Made,
        fits(FarmStepView::Relink { source, target: source, at }, event) <==> event is Made,
        fits(FarmStepView::Probe { source, at }, event) <==> event is Taken,
        fits(FarmStepView::ReadLink { source, at }, event) <==> event is Points,
        !fits(FarmStepView::Done, event),
{
}

/// A step, an event and a placement are known by all that they hold.
pub proof fn law_steps_are_known_by_all_they_hold(a: Vec<u8>, b: Vec<u8>, c: Vec<u8>, taken: bool)
    ensures
        (FarmStep::MakeDir { at: a })@ == (FarmStepView::MakeDir { at: a@ }),
        (FarmStep::Probe { source: a, at: b })@ == (FarmStepView::Probe { source: a@, at: b@ }),
        (FarmStep::Link { target: a, at: b })@ == (FarmStepView::Link { target: a@, at: b@ }),
        (FarmStep::ReadLink { source: a, at: b })@ == (FarmStepView::ReadLink {
            source: a@,
            at: b@,
        }),
        (FarmStep::Relink { source: a, target: b, at: c })@ == (FarmStepView::Relink {
            source: a@,
            target: b@,
            at: c@,
        }),
        FarmStep::Done@ is Done,
        FarmEvent::Made@ is Made,
        FarmEvent::Taken(taken)@ == FarmEventView::Taken(taken),
        FarmEvent::Points(Some(a))@ == FarmEventView::Points(Some(a@)),
        FarmEvent::Points(None)@ == FarmEventView::Points(None),
        Placement::Skip@ is Skip,
        (Placement::Directory { at: a })@ == (PlacementView::Directory { at: a@ }),
        (Placement::Link { at: a })@ == (PlacementView::Link { at: a@ }),
        first_target(a@, taken) == (if taken {
            None
        } else {
            Some(a@)
        }),
{
}

} // verus!
