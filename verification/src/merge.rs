//! The merged tree: what the steps of `farm` and `scripts` make of the farm.
//!
//! The farm is a map from places to what stands there, a place being the components of
//! a path. What lies outside of it, the layers and the host, does not change while it is
//! built, and is known by what a path leads to and by what a file holds.

use crate::farm::{
    first_step, placement, second_target, step_after, FarmEventView, FarmStepView,
    PlacementView,
};
use crate::paths::{components, lies_under};
use crate::scripts;
use crate::scripts::{
    has_script_mark, is_shell_script, overlay, path_starts, paths_in, places_in, rewritten_script,
    ScriptEventView, ScriptStepView,
};
use vstd::prelude::*;

verus! {

/// An entry of a layer: where it is, whether it is a directory, and where it points if
/// it is a link.
pub struct Entry {
    pub path: Seq<u8>,
    pub is_dir: bool,
    pub link: Option<Seq<u8>>,
}

/// A layer: where it is, and its entries in the order of the walk.
pub struct Tree {
    pub path: Seq<u8>,
    pub entries: Seq<Entry>,
}

/// What stands at a place of the farm.
pub enum Node {
    Directory,
    /// A link, created for `source`, that points to `target`.
    Link { source: Seq<u8>, target: Seq<u8> },
    File { text: Seq<u8> },
}

/// The farm: what stands at each place.
pub type Farm = Map<Seq<Seq<u8>>, Node>;

/// What a path leads to in the end.
pub enum Lead {
    Nothing,
    Directory,
    SomethingElse,
}

/// What some steps come to.
pub enum Outcome {
    /// The farm is now this one.
    Built { farm: Farm },
    /// A step fails, and the farm is given up.
    Fails,
    /// A step is about a place whose parents are not all directories of the farm: where
    /// one is a link, the step reaches beyond the farm. A walk names directories before
    /// what is in them, so this happens only where layers clash.
    Beyond,
}

/// What a farm has at a place, if anything.
pub open spec fn node_at(farm: Farm, place: Seq<Seq<u8>>) -> Option<Node> {
    if farm.dom().contains(place) {
        Some(farm[place])
    } else {
        None
    }
}

/// Whether all parents of a place, up to the farm's own directory, are directories of
/// the farm.
pub open spec fn has_parents(farm: Farm, farm_root: Seq<u8>, place: Seq<Seq<u8>>) -> bool {
    forall|n: int|
        components(farm_root).len() < n < place.len() ==> node_at(farm, #[trigger] place.take(n))
            == Some(Node::Directory)
}

/// Whether there is something at a place, where links lead.
pub open spec fn is_taken(
    farm: Farm,
    place: Seq<Seq<u8>>,
    leads: spec_fn(Seq<u8>) -> Lead,
) -> bool {
    match node_at(farm, place) {
        Some(Node::Link { source, .. }) => !(leads(source) is Nothing),
        Some(_) => true,
        None => false,
    }
}

/// What creating a directory comes to: one that is there, or that a link leads to, is
/// left; anything else in its place is a failure.
pub open spec fn with_directory(
    farm: Farm,
    place: Seq<Seq<u8>>,
    leads: spec_fn(Seq<u8>) -> Lead,
) -> Outcome {
    match node_at(farm, place) {
        None => Outcome::Built { farm: farm.insert(place, Node::Directory) },
        Some(Node::Directory) => Outcome::Built { farm },
        Some(Node::Link { source, .. }) => if leads(source) is Directory {
            Outcome::Built { farm }
        } else {
            Outcome::Fails
        },
        Some(Node::File { .. }) => Outcome::Fails,
    }
}

/// What a step comes to.
pub open spec fn performed(
    farm: Farm,
    farm_root: Seq<u8>,
    step: FarmStepView,
    leads: spec_fn(Seq<u8>) -> Lead,
) -> Outcome {
    match step {
        FarmStepView::MakeDir { at } => if has_parents(farm, farm_root, components(at)) {
            with_directory(farm, components(at), leads)
        } else {
            Outcome::Beyond
        },
        FarmStepView::Probe { source, at } => if has_parents(farm, farm_root, components(at)) {
            Outcome::Built { farm }
        } else {
            Outcome::Beyond
        },
        FarmStepView::Link { target, at } => if !has_parents(farm, farm_root, components(at)) {
            Outcome::Beyond
        } else if farm.dom().contains(components(at)) {
            Outcome::Fails
        } else {
            Outcome::Built {
                farm: farm.insert(components(at), Node::Link { source: target, target }),
            }
        },
        FarmStepView::Relink { source, target, at } => if has_parents(
            farm,
            farm_root,
            components(at),
        ) {
            Outcome::Built { farm: farm.insert(components(at), Node::Link { source, target }) }
        } else {
            Outcome::Beyond
        },
        _ => Outcome::Built { farm },
    }
}

/// The event that a farm gives for a step, for an entry that points to `link`.
pub open spec fn observed(
    farm: Farm,
    step: FarmStepView,
    link: Option<Seq<u8>>,
    leads: spec_fn(Seq<u8>) -> Lead,
) -> FarmEventView {
    match step {
        FarmStepView::Probe { source, at } => FarmEventView::Taken(
            is_taken(farm, components(at), leads),
        ),
        FarmStepView::ReadLink { source, at } => FarmEventView::Points(link),
        _ => FarmEventView::Made,
    }
}

/// What a step and those that follow it come to.
pub open spec fn run(
    farm: Farm,
    farm_root: Seq<u8>,
    step: FarmStepView,
    link: Option<Seq<u8>>,
    leads: spec_fn(Seq<u8>) -> Lead,
    fuel: nat,
) -> Outcome
    decreases fuel,
{
    if fuel == 0 || step is Done {
        Outcome::Built { farm }
    } else {
        match performed(farm, farm_root, step, leads) {
            Outcome::Built { farm: after } => run(
                after,
                farm_root,
                step_after(step, observed(after, step, link, leads)),
                link,
                leads,
                (fuel - 1) as nat,
            ),
            other => other,
        }
    }
}

/// The target that a new link ends up with.
pub open spec fn final_target(entry: Entry) -> Seq<u8> {
    match second_target(entry.link) {
        Some(target) => target,
        None => entry.path,
    }
}

/// What an entry puts into the farm, where it comes first.
pub open spec fn node_of(entry: Entry) -> Node {
    if entry.is_dir {
        Node::Directory
    } else {
        Node::Link { source: entry.path, target: final_target(entry) }
    }
}

/// A file that is no link is reached at its own place in its layer, wherever that lies.
pub proof fn law_file_is_linked_where_it_lies(entry: Entry)
    requires
        entry.link is None,
    ensures
        final_target(entry) == entry.path,
{
}

/// What the farm comes to with one more entry of a layer: its directory, or its link with
/// its final target, is added, unless the place is taken. It fails where a directory
/// meets something else, and where a link meets one that leads nowhere.
pub open spec fn with_entry(
    farm: Farm,
    farm_root: Seq<u8>,
    layer_path: Seq<u8>,
    entry: Entry,
    leads: spec_fn(Seq<u8>) -> Lead,
) -> Outcome {
    match placement(farm_root, layer_path, entry.path, entry.is_dir) {
        PlacementView::Skip => Outcome::Built { farm },
        PlacementView::Directory { at } => if has_parents(farm, farm_root, components(at)) {
            with_directory(farm, components(at), leads)
        } else {
            Outcome::Beyond
        },
        PlacementView::Link { at } => if !has_parents(farm, farm_root, components(at)) {
            Outcome::Beyond
        } else if is_taken(farm, components(at), leads) {
            Outcome::Built { farm }
        } else if farm.dom().contains(components(at)) {
            Outcome::Fails
        } else {
            Outcome::Built { farm: farm.insert(components(at), node_of(entry)) }
        },
    }
}

/// What the farm comes to with further entries of a layer.
pub open spec fn with_entries(
    farm: Farm,
    farm_root: Seq<u8>,
    layer_path: Seq<u8>,
    entries: Seq<Entry>,
    leads: spec_fn(Seq<u8>) -> Lead,
) -> Outcome
    decreases entries.len(),
{
    if entries.len() == 0 {
        Outcome::Built { farm }
    } else {
        match with_entries(farm, farm_root, layer_path, entries.drop_last(), leads) {
            Outcome::Built { farm: before } => with_entry(
                before,
                farm_root,
                layer_path,
                entries.last(),
                leads,
            ),
            other => other,
        }
    }
}

/// What the farm comes to with further layers, in their order.
pub open spec fn with_layers(
    farm: Farm,
    farm_root: Seq<u8>,
    layers: Seq<Tree>,
    leads: spec_fn(Seq<u8>) -> Lead,
) -> Outcome
    decreases layers.len(),
{
    if layers.len() == 0 {
        Outcome::Built { farm }
    } else {
        match with_layers(farm, farm_root, layers.drop_last(), leads) {
            Outcome::Built { farm: before } => with_entries(
                before,
                farm_root,
                layers.last().path,
                layers.last().entries,
                leads,
            ),
            other => other,
        }
    }
}

/// A place is none of its own parents.
proof fn lemma_parents_kept(farm: Farm, farm_root: Seq<u8>, place: Seq<Seq<u8>>, node: Node)
    requires
        has_parents(farm, farm_root, place),
    ensures
        has_parents(farm.insert(place, node), farm_root, place),
{
    let after = farm.insert(place, node);
    assert forall|n: int| components(farm_root).len() < n < place.len() implies node_at(
        after,
        #[trigger] place.take(n),
    ) == Some(Node::Directory) by {
        assert(place.take(n).len() != place.len());
        assert(node_at(farm, place.take(n)) == Some(Node::Directory));
    }
}

/// Taking the steps for an entry comes to what is said of one more entry.
pub proof fn law_steps_add_the_entry(
    farm: Farm,
    farm_root: Seq<u8>,
    layer_path: Seq<u8>,
    entry: Entry,
    leads: spec_fn(Seq<u8>) -> Lead,
)
    ensures
        run(
            farm,
            farm_root,
            first_step(farm_root, layer_path, entry.path, entry.is_dir),
            entry.link,
            leads,
            5,
        ) == with_entry(farm, farm_root, layer_path, entry, leads),
{
    reveal_with_fuel(run, 6);
    if let PlacementView::Link { at } = placement(
        farm_root,
        layer_path,
        entry.path,
        entry.is_dir,
    ) {
        let place = components(at);
        if has_parents(farm, farm_root, place) && !farm.dom().contains(place) {
            let first = Node::Link { source: entry.path, target: entry.path };
            let linked = farm.insert(place, first);
            lemma_parents_kept(farm, farm_root, place, first);
            assert(linked.insert(place, node_of(entry)) =~= farm.insert(place, node_of(entry)));
        }
    }
}

/// Whether an entry's place in the farm is this one.
pub open spec fn is_at(
    farm_root: Seq<u8>,
    layer_path: Seq<u8>,
    entry: Entry,
    place: Seq<Seq<u8>>,
) -> bool {
    match placement(farm_root, layer_path, entry.path, entry.is_dir) {
        PlacementView::Skip => false,
        PlacementView::Directory { at } => components(at) == place,
        PlacementView::Link { at } => components(at) == place,
    }
}

/// What the first of these entries at a place puts there.
pub open spec fn first_of_entries(
    farm_root: Seq<u8>,
    layer_path: Seq<u8>,
    entries: Seq<Entry>,
    place: Seq<Seq<u8>>,
) -> Option<Node>
    decreases entries.len(),
{
    if entries.len() == 0 {
        None
    } else {
        match first_of_entries(farm_root, layer_path, entries.drop_last(), place) {
            Some(node) => Some(node),
            None => if is_at(farm_root, layer_path, entries.last(), place) {
                Some(node_of(entries.last()))
            } else {
                None
            },
        }
    }
}

/// What the first entry of all layers at a place puts there.
pub open spec fn first_of_layers(
    farm_root: Seq<u8>,
    layers: Seq<Tree>,
    place: Seq<Seq<u8>>,
) -> Option<Node>
    decreases layers.len(),
{
    if layers.len() == 0 {
        None
    } else {
        match first_of_layers(farm_root, layers.drop_last(), place) {
            Some(node) => Some(node),
            None => first_of_entries(farm_root, layers.last().path, layers.last().entries, place),
        }
    }
}

/// The first of two, where there is one.
pub open spec fn first_of(a: Option<Node>, b: Option<Node>) -> Option<Node> {
    match a {
        Some(node) => Some(node),
        None => b,
    }
}

proof fn lemma_one_entry(
    farm: Farm,
    farm_root: Seq<u8>,
    layer_path: Seq<u8>,
    entry: Entry,
    leads: spec_fn(Seq<u8>) -> Lead,
    place: Seq<Seq<u8>>,
)
    requires
        with_entry(farm, farm_root, layer_path, entry, leads) is Built,
    ensures
        node_at(with_entry(farm, farm_root, layer_path, entry, leads)->farm, place) == first_of(
            node_at(farm, place),
            if is_at(farm_root, layer_path, entry, place) {
                Some(node_of(entry))
            } else {
                None
            },
        ),
{
    match placement(farm_root, layer_path, entry.path, entry.is_dir) {
        PlacementView::Skip => {},
        PlacementView::Directory { at } => {
            assert(entry.is_dir);
            assert(farm.dom().contains(components(at)) || node_of(entry) == Node::Directory);
        },
        PlacementView::Link { at } => {
            assert(is_taken(farm, components(at), leads) ==> farm.dom().contains(components(at)));
        },
    }
}

proof fn lemma_first_of_entries(
    farm: Farm,
    farm_root: Seq<u8>,
    layer_path: Seq<u8>,
    entries: Seq<Entry>,
    leads: spec_fn(Seq<u8>) -> Lead,
    place: Seq<Seq<u8>>,
)
    requires
        with_entries(farm, farm_root, layer_path, entries, leads) is Built,
    ensures
        node_at(
            with_entries(farm, farm_root, layer_path, entries, leads)->farm,
            place,
        ) == first_of(
            node_at(farm, place),
            first_of_entries(farm_root, layer_path, entries, place),
        ),
    decreases entries.len(),
{
    if entries.len() > 0 {
        let front = entries.drop_last();
        let before = with_entries(farm, farm_root, layer_path, front, leads)->farm;
        lemma_first_of_entries(farm, farm_root, layer_path, front, leads, place);
        lemma_one_entry(before, farm_root, layer_path, entries.last(), leads, place);
    }
}

/// At every place the farm has what it had, or else what the first entry there puts, in
/// the order of the layers and of the walk through each; where there is no entry it has
/// nothing new.
pub proof fn law_first_entry_is_seen(
    farm: Farm,
    farm_root: Seq<u8>,
    layers: Seq<Tree>,
    leads: spec_fn(Seq<u8>) -> Lead,
    place: Seq<Seq<u8>>,
)
    requires
        with_layers(farm, farm_root, layers, leads) is Built,
    ensures
        node_at(with_layers(farm, farm_root, layers, leads)->farm, place) == first_of(
            node_at(farm, place),
            first_of_layers(farm_root, layers, place),
        ),
    decreases layers.len(),
{
    if layers.len() > 0 {
        let front = layers.drop_last();
        law_first_entry_is_seen(farm, farm_root, front, leads, place);
        lemma_first_of_entries(
            with_layers(farm, farm_root, front, leads)->farm,
            farm_root,
            layers.last().path,
            layers.last().entries,
            leads,
            place,
        );
    }
}

/// Later layers leave what the earlier ones put into the farm as it is: where several
/// layers have a file of one name, the first one's is seen.
pub proof fn law_first_layer_wins(
    farm: Farm,
    farm_root: Seq<u8>,
    layers: Seq<Tree>,
    leads: spec_fn(Seq<u8>) -> Lead,
)
    requires
        with_layers(farm, farm_root, layers, leads) is Built,
    ensures
        farm.submap_of(with_layers(farm, farm_root, layers, leads)->farm),
{
    let whole = with_layers(farm, farm_root, layers, leads)->farm;
    assert forall|place: Seq<Seq<u8>>| #[trigger] farm.dom().contains(place) implies {
        &&& whole.dom().contains(place)
        &&& whole[place] == farm[place]
    } by {
        law_first_entry_is_seen(farm, farm_root, layers, leads, place);
        assert(node_at(whole, place) == Some(farm[place]));
    }
}

proof fn lemma_entry_counts(
    farm_root: Seq<u8>,
    layer_path: Seq<u8>,
    entries: Seq<Entry>,
    place: Seq<Seq<u8>>,
    j: int,
)
    requires
        0 <= j < entries.len(),
        is_at(farm_root, layer_path, entries[j], place),
    ensures
        first_of_entries(farm_root, layer_path, entries, place) is Some,
    decreases entries.len(),
{
    if j < entries.len() - 1 {
        lemma_entry_counts(farm_root, layer_path, entries.drop_last(), place, j);
    }
}

proof fn lemma_layer_counts(
    farm_root: Seq<u8>,
    layers: Seq<Tree>,
    place: Seq<Seq<u8>>,
    i: int,
    j: int,
)
    requires
        0 <= i < layers.len(),
        0 <= j < layers[i].entries.len(),
        is_at(farm_root, layers[i].path, layers[i].entries[j], place),
    ensures
        first_of_layers(farm_root, layers, place) is Some,
    decreases layers.len(),
{
    if i < layers.len() - 1 {
        lemma_layer_counts(farm_root, layers.drop_last(), place, i, j);
    } else {
        lemma_entry_counts(farm_root, layers[i].path, layers[i].entries, place, j);
    }
}

/// The farm has something at the place of every entry of every layer.
pub proof fn law_farm_merges_all_layers(
    farm: Farm,
    farm_root: Seq<u8>,
    layers: Seq<Tree>,
    leads: spec_fn(Seq<u8>) -> Lead,
    i: int,
    j: int,
    place: Seq<Seq<u8>>,
)
    requires
        with_layers(farm, farm_root, layers, leads) is Built,
        0 <= i < layers.len(),
        0 <= j < layers[i].entries.len(),
        is_at(farm_root, layers[i].path, layers[i].entries[j], place),
    ensures
        with_layers(farm, farm_root, layers, leads)->farm.dom().contains(place),
{
    lemma_layer_counts(farm_root, layers, place, i, j);
    law_first_entry_is_seen(farm, farm_root, layers, leads, place);
}

/// Whether an entry of a layer puts this node at this place.
pub open spec fn puts(
    farm_root: Seq<u8>,
    layers: Seq<Tree>,
    i: int,
    j: int,
    place: Seq<Seq<u8>>,
    node: Node,
) -> bool {
    &&& 0 <= i < layers.len()
    &&& 0 <= j < layers[i].entries.len()
    &&& is_at(farm_root, layers[i].path, layers[i].entries[j], place)
    &&& node == node_of(layers[i].entries[j])
}

proof fn lemma_entry_of(
    farm_root: Seq<u8>,
    layer_path: Seq<u8>,
    entries: Seq<Entry>,
    place: Seq<Seq<u8>>,
) -> (j: int)
    requires
        first_of_entries(farm_root, layer_path, entries, place) is Some,
    ensures
        0 <= j < entries.len(),
        is_at(farm_root, layer_path, entries[j], place),
        first_of_entries(farm_root, layer_path, entries, place) == Some(node_of(entries[j])),
    decreases entries.len(),
{
    let front = entries.drop_last();
    if first_of_entries(farm_root, layer_path, front, place) is Some {
        lemma_entry_of(farm_root, layer_path, front, place)
    } else {
        entries.len() - 1
    }
}

proof fn lemma_layer_of(farm_root: Seq<u8>, layers: Seq<Tree>, place: Seq<Seq<u8>>) -> (r: (
    int,
    int,
))
    requires
        first_of_layers(farm_root, layers, place) is Some,
    ensures
        puts(farm_root, layers, r.0, r.1, place, first_of_layers(farm_root, layers, place)->0),
    decreases layers.len(),
{
    let front = layers.drop_last();
    if first_of_layers(farm_root, front, place) is Some {
        lemma_layer_of(farm_root, front, place)
    } else {
        let last = layers.last();
        (layers.len() - 1, lemma_entry_of(farm_root, last.path, last.entries, place))
    }
}

/// The farm holds nothing but what the entries of the layers put into it.
pub proof fn law_nothing_else_is_in_the_farm(
    farm_root: Seq<u8>,
    layers: Seq<Tree>,
    leads: spec_fn(Seq<u8>) -> Lead,
    place: Seq<Seq<u8>>,
)
    requires
        with_layers(Map::empty(), farm_root, layers, leads) is Built,
        with_layers(Map::empty(), farm_root, layers, leads)->farm.dom().contains(place),
    ensures
        exists|i: int, j: int| #[trigger]
            puts(
                farm_root,
                layers,
                i,
                j,
                place,
                with_layers(Map::empty(), farm_root, layers, leads)->farm[place],
            ),
{
    let farm = with_layers(Map::empty(), farm_root, layers, leads)->farm;
    law_first_entry_is_seen(Map::empty(), farm_root, layers, leads, place);
    assert(node_at(farm, place) == first_of_layers(farm_root, layers, place));
    let (i, j) = lemma_layer_of(farm_root, layers, place);
    assert(puts(farm_root, layers, i, j, place, farm[place]));
}

/// Whether all entries at a place are of one kind.
pub open spec fn is_of_one_kind(
    farm_root: Seq<u8>,
    layers: Seq<Tree>,
    place: Seq<Seq<u8>>,
    is_dir: bool,
) -> bool {
    forall|i: int, j: int|
        0 <= i < layers.len() && 0 <= j < layers[i].entries.len() && #[trigger] is_at(
            farm_root,
            layers[i].path,
            layers[i].entries[j],
            place,
        ) ==> layers[i].entries[j].is_dir == is_dir
}

/// Whether no other entry has this entry's place.
pub open spec fn is_alone(
    farm_root: Seq<u8>,
    layers: Seq<Tree>,
    i: int,
    j: int,
    place: Seq<Seq<u8>>,
) -> bool {
    forall|k: int, l: int|
        0 <= k < layers.len() && 0 <= l < layers[k].entries.len() && #[trigger] is_at(
            farm_root,
            layers[k].path,
            layers[k].entries[l],
            place,
        ) ==> k == i && l == j
}

/// Where the layers do not clash over what a place is, a directory of a layer is a
/// directory of the farm, and anything else is a link; and an entry that is alone at its
/// place is reached there.
pub proof fn law_entry_keeps_its_kind(
    farm_root: Seq<u8>,
    layers: Seq<Tree>,
    leads: spec_fn(Seq<u8>) -> Lead,
    i: int,
    j: int,
    place: Seq<Seq<u8>>,
)
    requires
        with_layers(Map::empty(), farm_root, layers, leads) is Built,
        0 <= i < layers.len(),
        0 <= j < layers[i].entries.len(),
        is_at(farm_root, layers[i].path, layers[i].entries[j], place),
        is_of_one_kind(farm_root, layers, place, layers[i].entries[j].is_dir),
    ensures
        ({
            let farm = with_layers(Map::empty(), farm_root, layers, leads)->farm;
            let entry = layers[i].entries[j];
            &&& farm.dom().contains(place)
            &&& farm[place] is Directory <==> entry.is_dir
            &&& farm[place] is Link <==> !entry.is_dir
            &&& is_alone(farm_root, layers, i, j, place) ==> farm[place] == node_of(entry)
        }),
{
    let farm = with_layers(Map::empty(), farm_root, layers, leads)->farm;
    law_farm_merges_all_layers(Map::empty(), farm_root, layers, leads, i, j, place);
    law_nothing_else_is_in_the_farm(farm_root, layers, leads, place);
    let (k, l) = choose|k: int, l: int| #[trigger]
        puts(farm_root, layers, k, l, place, farm[place]);
    assert(is_at(farm_root, layers[k].path, layers[k].entries[l], place));
}

/// Whether each entry of a layer comes behind the directories that it is in.
pub open spec fn is_walk(farm_root: Seq<u8>, tree: Tree) -> bool {
    forall|j: int, place: Seq<Seq<u8>>, n: int|
        0 <= j < tree.entries.len() && #[trigger] is_at(
            farm_root,
            tree.path,
            tree.entries[j],
            place,
        ) && components(farm_root).len() < n < place.len() ==> is_made_before(
            farm_root,
            tree,
            j,
            #[trigger] place.take(n),
        )
}

/// Whether one of the first `j` entries of a layer is a directory at this place.
pub open spec fn is_made_before(
    farm_root: Seq<u8>,
    tree: Tree,
    j: int,
    place: Seq<Seq<u8>>,
) -> bool {
    exists|l: int|
        0 <= l < j && #[trigger] is_at(farm_root, tree.path, tree.entries[l], place)
            && tree.entries[l].is_dir
}

/// Whether two entries can share a place: they are both directories, or neither is and
/// the first one leads somewhere.
pub open spec fn can_share(a: Entry, b: Entry, leads: spec_fn(Seq<u8>) -> Lead) -> bool {
    a.is_dir == b.is_dir && (a.is_dir || !(leads(a.path) is Nothing))
}

/// Whether all entries that share a place can do so.
pub open spec fn do_not_clash(
    farm_root: Seq<u8>,
    layers: Seq<Tree>,
    leads: spec_fn(Seq<u8>) -> Lead,
) -> bool {
    forall|i: int, j: int, k: int, l: int, place: Seq<Seq<u8>>|
        0 <= i < layers.len() && 0 <= j < layers[i].entries.len() && 0 <= k < layers.len() && 0 <= l
            < layers[k].entries.len() && (i != k || j != l) && #[trigger] is_at(
            farm_root,
            layers[i].path,
            layers[i].entries[j],
            place,
        ) && #[trigger] is_at(farm_root, layers[k].path, layers[k].entries[l], place) ==> can_share(
            layers[i].entries[j],
            layers[k].entries[l],
            leads,
        )
}

/// The first `i` layers and the first `j` entries of the next one.
spec fn front_of(layers: Seq<Tree>, i: int, j: int) -> Seq<Tree> {
    layers.take(i).push(Tree { path: layers[i].path, entries: layers[i].entries.take(j) })
}

proof fn lemma_parents_are_made(
    farm_root: Seq<u8>,
    layers: Seq<Tree>,
    leads: spec_fn(Seq<u8>) -> Lead,
    i: int,
    j: int,
    place: Seq<Seq<u8>>,
)
    requires
        0 <= i < layers.len(),
        0 <= j < layers[i].entries.len(),
        is_walk(farm_root, layers[i]),
        do_not_clash(farm_root, layers, leads),
        with_layers(Map::empty(), farm_root, front_of(layers, i, j), leads) is Built,
        is_at(farm_root, layers[i].path, layers[i].entries[j], place),
    ensures
        has_parents(
            with_layers(Map::empty(), farm_root, front_of(layers, i, j), leads)->farm,
            farm_root,
            place,
        ),
{
    let front = front_of(layers, i, j);
    let farm = with_layers(Map::empty(), farm_root, front, leads)->farm;
    assert forall|n: int| components(farm_root).len() < n < place.len() implies node_at(
        farm,
        #[trigger] place.take(n),
    ) == Some(Node::Directory) by {
        let parent = place.take(n);
        assert(is_made_before(farm_root, layers[i], j, parent));
        let l = choose|l: int|
            0 <= l < j && #[trigger] is_at(
                farm_root,
                layers[i].path,
                layers[i].entries[l],
                parent,
            ) && layers[i].entries[l].is_dir;
        assert(front[i].entries[l] == layers[i].entries[l]);
        assert forall|k: int, m: int|
            0 <= k < front.len() && 0 <= m < front[k].entries.len() && #[trigger] is_at(
                farm_root,
                front[k].path,
                front[k].entries[m],
                parent,
            ) implies front[k].entries[m].is_dir == true by {
            assert(front[k].path == layers[k].path);
            assert(front[k].entries[m] == layers[k].entries[m]);
            assert(is_at(farm_root, layers[k].path, layers[k].entries[m], parent));
        }
        assert(is_of_one_kind(farm_root, front, parent, true));
        law_entry_keeps_its_kind(farm_root, front, leads, i, l, parent);
    }
}

proof fn lemma_front_is_built(
    farm_root: Seq<u8>,
    layers: Seq<Tree>,
    leads: spec_fn(Seq<u8>) -> Lead,
    i: int,
    j: int,
)
    requires
        0 <= i < layers.len(),
        0 <= j <= layers[i].entries.len(),
        forall|k: int| 0 <= k < layers.len() ==> is_walk(farm_root, #[trigger] layers[k]),
        do_not_clash(farm_root, layers, leads),
    ensures
        with_layers(Map::empty(), farm_root, front_of(layers, i, j), leads) is Built,
    decreases i, j,
{
    let front = front_of(layers, i, j);
    assert(front.drop_last() =~= layers.take(i));
    if j == 0 {
        if i > 0 {
            let n = layers[i - 1].entries.len() as int;
            lemma_front_is_built(farm_root, layers, leads, i - 1, n);
            assert(layers[i - 1].entries.take(n) =~= layers[i - 1].entries);
            assert(front_of(layers, i - 1, n) =~= layers.take(i));
        }
        assert(with_layers(Map::empty(), farm_root, layers.take(i), leads) is Built);
        assert(front.last().entries.len() == 0);
    } else {
        let before = front_of(layers, i, j - 1);
        let entries = layers[i].entries;
        let entry = entries[j - 1];
        lemma_front_is_built(farm_root, layers, leads, i, j - 1);
        assert(before.drop_last() =~= layers.take(i));
        assert(entries.take(j).drop_last() =~= entries.take(j - 1));
        let farm = with_layers(Map::empty(), farm_root, before, leads)->farm;
        assert(with_layers(Map::empty(), farm_root, front, leads) == with_entry(
            farm,
            farm_root,
            layers[i].path,
            entry,
            leads,
        ));
        let p = placement(farm_root, layers[i].path, entry.path, entry.is_dir);
        if !(p is Skip) {
            let place = match p {
                PlacementView::Directory { at } => components(at),
                PlacementView::Link { at } => components(at),
                PlacementView::Skip => seq![],
            };
            assert(is_at(farm_root, layers[i].path, entry, place));
            lemma_parents_are_made(farm_root, layers, leads, i, j - 1, place);
            if farm.dom().contains(place) {
                law_nothing_else_is_in_the_farm(farm_root, before, leads, place);
                let (k, l) = choose|k: int, l: int| #[trigger]
                    puts(farm_root, before, k, l, place, farm[place]);
                assert(before[k].path == layers[k].path);
                assert(before[k].entries[l] == layers[k].entries[l]);
                assert(is_at(farm_root, layers[k].path, layers[k].entries[l], place));
                assert(can_share(layers[k].entries[l], entry, leads));
            }
        }
    }
}

/// Layers that do not clash are merged without a failure.
pub proof fn law_layers_without_a_clash_are_merged(
    farm_root: Seq<u8>,
    layers: Seq<Tree>,
    leads: spec_fn(Seq<u8>) -> Lead,
)
    requires
        forall|k: int| 0 <= k < layers.len() ==> is_walk(farm_root, #[trigger] layers[k]),
        do_not_clash(farm_root, layers, leads),
    ensures
        with_layers(Map::empty(), farm_root, layers, leads) is Built,
{
    if layers.len() > 0 {
        let i = layers.len() - 1;
        let n = layers[i].entries.len() as int;
        lemma_front_is_built(farm_root, layers, leads, i, n);
        assert(layers[i].entries.take(n) =~= layers[i].entries);
        assert(front_of(layers, i, n) =~= layers);
    }
}

/// Which paths of a script the farm provides: those at whose places it has something.
pub open spec fn provided_by(farm: Farm, farm_root: Seq<u8>, text: Seq<u8>) -> Seq<bool> {
    places_in(farm_root, text).map_values(
        |place: Seq<u8>| farm.dom().contains(components(place)),
    )
}

/// What becomes of what stands at a place once the scripts are dealt with: a link to a
/// script that calls what the farm provides gives way to the rewritten text. `content`
/// says what the file that a path leads to holds.
pub open spec fn settled(
    farm: Farm,
    farm_root: Seq<u8>,
    content: spec_fn(Seq<u8>) -> Option<Seq<u8>>,
    node: Node,
) -> Node {
    match node {
        Node::Link { source, target } => if lies_under(target, overlay()) {
            node
        } else {
            match content(target) {
                Some(text) => match rewritten_script(text, provided_by(farm, farm_root, text)) {
                    Some(new) => Node::File { text: new },
                    None => node,
                },
                None => node,
            }
        },
        _ => node,
    }
}

/// The first bytes of a text.
pub open spec fn head_of(text: Seq<u8>) -> Seq<u8> {
    if text.len() < 2 {
        text
    } else {
        text.take(2)
    }
}

/// The event that a farm gives for a step.
pub open spec fn script_observed(
    farm: Farm,
    step: ScriptStepView,
    content: spec_fn(Seq<u8>) -> Option<Seq<u8>>,
) -> ScriptEventView {
    match step {
        ScriptStepView::ReadHead { source, .. } => ScriptEventView::Head(
            match content(source) {
                Some(text) => Some(head_of(text)),
                None => None,
            },
        ),
        ScriptStepView::ReadText { source, .. } => ScriptEventView::Text(content(source)),
        ScriptStepView::LookUp { places, .. } => ScriptEventView::Provided(
            places.map_values(|place: Seq<u8>| farm.dom().contains(components(place))),
        ),
        _ => ScriptEventView::Replaced,
    }
}

/// What a step does to the farm.
pub open spec fn script_performed(farm: Farm, step: ScriptStepView) -> Farm {
    match step {
        ScriptStepView::Replace { source, at, text } => farm.insert(
            components(at),
            Node::File { text },
        ),
        _ => farm,
    }
}

/// The farm after a step and those that follow it.
pub open spec fn run_script(
    farm: Farm,
    farm_root: Seq<u8>,
    step: ScriptStepView,
    content: spec_fn(Seq<u8>) -> Option<Seq<u8>>,
    fuel: nat,
) -> Farm
    decreases fuel,
{
    if fuel == 0 || step is Done {
        farm
    } else {
        let after = script_performed(farm, step);
        run_script(
            after,
            farm_root,
            scripts::step_after(farm_root, step, script_observed(after, step, content)),
            content,
            (fuel - 1) as nat,
        )
    }
}

/// Taking the steps for a link leaves what is said to become of it, and the rest of the
/// farm as it was.
pub proof fn law_script_steps_settle_the_link(
    farm: Farm,
    farm_root: Seq<u8>,
    content: spec_fn(Seq<u8>) -> Option<Seq<u8>>,
    source: Seq<u8>,
    target: Seq<u8>,
    at: Seq<u8>,
)
    requires
        node_at(farm, components(at)) == Some(Node::Link { source, target }),
    ensures
        run_script(farm, farm_root, scripts::first_step(target, at), content, 4) == farm.insert(
            components(at),
            settled(farm, farm_root, content, farm[components(at)]),
        ),
{
    reveal_with_fuel(run_script, 5);
    let place = components(at);
    assert(farm.insert(place, farm[place]) =~= farm);
    if !lies_under(target, overlay()) {
        if let Some(text) = content(target) {
            assert(has_script_mark(head_of(text)) == has_script_mark(text));
            let provided = provided_by(farm, farm_root, text);
            if !has_script_mark(text) {
                assert(!is_shell_script(text));
                assert(path_starts(text).len() == 0);
                assert(provided.len() == 0);
                assert(!provided.contains(true));
            }
        }
    }
}

/// The farm after the steps for the links among these paths, in their order.
pub open spec fn with_scripts(
    farm: Farm,
    farm_root: Seq<u8>,
    content: spec_fn(Seq<u8>) -> Option<Seq<u8>>,
    paths: Seq<Seq<u8>>,
) -> Farm
    decreases paths.len(),
{
    if paths.len() == 0 {
        farm
    } else {
        let before = with_scripts(farm, farm_root, content, paths.drop_last());
        match node_at(before, components(paths.last())) {
            Some(Node::Link { source, target }) => run_script(
                before,
                farm_root,
                scripts::first_step(target, paths.last()),
                content,
                4,
            ),
            _ => before,
        }
    }
}

/// Whether one of the paths names a place.
pub open spec fn names_place(paths: Seq<Seq<u8>>, place: Seq<Seq<u8>>) -> bool {
    exists|i: int| 0 <= i < paths.len() && #[trigger] components(paths[i]) == place
}

/// After the scripts are dealt with, the place of a script that calls what the farm
/// provides holds the rewritten text, whatever the order; every other place holds what
/// it did.
pub proof fn law_scripts_take_their_places(
    farm: Farm,
    farm_root: Seq<u8>,
    content: spec_fn(Seq<u8>) -> Option<Seq<u8>>,
    paths: Seq<Seq<u8>>,
    place: Seq<Seq<u8>>,
)
    ensures
        with_scripts(farm, farm_root, content, paths).dom() == farm.dom(),
        farm.dom().contains(place) ==> with_scripts(farm, farm_root, content, paths)[place] == (
        if names_place(paths, place) {
            settled(farm, farm_root, content, farm[place])
        } else {
            farm[place]
        }),
    decreases paths.len(),
{
    if paths.len() > 0 {
        let front = paths.drop_last();
        let before = with_scripts(farm, farm_root, content, front);
        let after = with_scripts(farm, farm_root, content, paths);
        let last = components(paths.last());
        law_scripts_take_their_places(farm, farm_root, content, front, place);
        law_scripts_take_their_places(farm, farm_root, content, front, last);
        lemma_names_one_more(paths, place);
        if let Some(Node::Link { source, target }) = node_at(before, last) {
            law_script_steps_settle_the_link(
                before,
                farm_root,
                content,
                source,
                target,
                paths.last(),
            );
            lemma_same_places(farm, before, farm_root, content, before[last]);
            assert(after.dom() =~= farm.dom());
        }
    }
}

proof fn lemma_names_one_more(paths: Seq<Seq<u8>>, place: Seq<Seq<u8>>)
    requires
        paths.len() > 0,
    ensures
        names_place(paths, place) <==> names_place(paths.drop_last(), place) || components(
            paths.last(),
        ) == place,
{
    let front = paths.drop_last();
    if names_place(front, place) {
        let i = choose|i: int| 0 <= i < front.len() && #[trigger] components(front[i]) == place;
        assert(components(paths[i]) == place);
    }
    if components(paths.last()) == place {
        assert(components(paths[paths.len() - 1]) == place);
    }
    if names_place(paths, place) {
        let i = choose|i: int| 0 <= i < paths.len() && #[trigger] components(paths[i]) == place;
        if i < front.len() {
            assert(components(front[i]) == place);
        }
    }
}

/// What becomes of a node depends on the places of the farm alone.
proof fn lemma_same_places(
    a: Farm,
    b: Farm,
    farm_root: Seq<u8>,
    content: spec_fn(Seq<u8>) -> Option<Seq<u8>>,
    node: Node,
)
    requires
        a.dom() == b.dom(),
    ensures
        settled(a, farm_root, content, node) == settled(b, farm_root, content, node),
{
    if let Node::Link { source, target } = node {
        if let Some(text) = content(target) {
            assert(provided_by(a, farm_root, text) =~= provided_by(b, farm_root, text));
        }
    }
}

/// In the merged tree a script of a layer calls the overlay: where a script that is no
/// link is alone at its place, and calls a path at whose place the tree has something,
/// the place holds the script's text with the overlay set in front of that path.
pub proof fn law_merged_script_calls_the_overlay(
    farm_root: Seq<u8>,
    layers: Seq<Tree>,
    leads: spec_fn(Seq<u8>) -> Lead,
    content: spec_fn(Seq<u8>) -> Option<Seq<u8>>,
    paths: Seq<Seq<u8>>,
    i: int,
    j: int,
    place: Seq<Seq<u8>>,
    text: Seq<u8>,
    k: int,
)
    requires
        with_layers(Map::empty(), farm_root, layers, leads) is Built,
        0 <= i < layers.len(),
        0 <= j < layers[i].entries.len(),
        is_at(farm_root, layers[i].path, layers[i].entries[j], place),
        is_alone(farm_root, layers, i, j, place),
        !layers[i].entries[j].is_dir,
        layers[i].entries[j].link is None,
        !lies_under(layers[i].entries[j].path, overlay()),
        content(layers[i].entries[j].path) == Some(text),
        names_place(paths, place),
        0 <= k < paths_in(text).len(),
        with_layers(Map::empty(), farm_root, layers, leads)->farm.dom().contains(
            components(farm_root + paths_in(text)[k]),
        ),
    ensures
        ({
            let farm = with_layers(Map::empty(), farm_root, layers, leads)->farm;
            let provided = provided_by(farm, farm_root, text);
            let path = paths_in(text)[k];
            let at = path_starts(text)[k] + scripts::shift(provided, k);
            &&& rewritten_script(text, provided) matches Some(new)
            &&& node_at(with_scripts(farm, farm_root, content, paths), place) == Some(
                Node::File { text: new },
            )
            &&& 0 <= at <= at + overlay().len() + path.len() <= new.len()
            &&& new.subrange(at, at + overlay().len() + path.len()) == overlay() + path
        }),
{
    let farm = with_layers(Map::empty(), farm_root, layers, leads)->farm;
    let provided = provided_by(farm, farm_root, text);
    law_entry_keeps_its_kind(farm_root, layers, leads, i, j, place);
    law_scripts_take_their_places(farm, farm_root, content, paths, place);
    assert(places_in(farm_root, text)[k] == farm_root + paths_in(text)[k]);
    assert(provided[k]);
    scripts::law_script_calls_the_overlay(text, provided, k);
}

} // verus!
