//! Package layers: what the package manager says of a package and of what it needs.

use crate::engine::{CoreEngine, EngineError};
use crate::outside::{lossy, text_of};
use crate::paths::{components, is_absolute, join, join_path, law_join_components, lies_under};
use crate::text::{
    is_space, lemma_run_len_is, line_len, lines, split_lines, split_words, texts, trim, trimmed,
    without_return, word_len, words,
};
use vstd::prelude::*;
use vstd::slice::slice_to_vec;
use vstd::utf8::encode_utf8;

verus! {

/// Represents a versioned Arch Linux package layer.
#[derive(Debug)]
pub struct PackageLayer {
    pub name: String,
    pub version: String,
    pub url: String,
    /// The directory that the package is unpacked into.
    pub path: Vec<u8>,
}

/// What a package layer holds.
pub struct LayerView {
    pub name: Seq<char>,
    pub version: Seq<char>,
    pub url: Seq<char>,
    pub path: Seq<u8>,
}

impl View for PackageLayer {
    type V = LayerView;

    open spec fn view(&self) -> LayerView {
        LayerView {
            name: self.name@,
            version: self.version@,
            url: self.url@,
            path: self.path@,
        }
    }
}

impl Clone for PackageLayer {
    fn clone(&self) -> (copy: PackageLayer)
        ensures
            copy@ == self@,
    {
        PackageLayer {
            name: self.name.clone(),
            version: self.version.clone(),
            url: self.url.clone(),
            path: slice_to_vec(self.path.as_slice()),
        }
    }
}

/// The contents of a list of layers.
pub open spec fn layer_views(list: Seq<PackageLayer>) -> Seq<LayerView> {
    list.map_values(|l: PackageLayer| l@)
}

/// The name of a layer's directory.
pub open spec fn layer_dir_name(name: Seq<char>, version: Seq<char>) -> Seq<char> {
    name + "-"@ + version
}

/// The layer of a package, kept under `root`.
pub open spec fn layer_under(
    root: Seq<u8>,
    name: Seq<char>,
    version: Seq<char>,
    url: Seq<char>,
) -> LayerView {
    LayerView { name, version, url, path: join(root, encode_utf8(layer_dir_name(name, version))) }
}

/// The layers that the lines of a listing name: one for each line of three words,
/// which are the package's name, its version and where it is to be had.
pub open spec fn listed_layers(root: Seq<u8>, listing: Seq<Seq<char>>) -> Seq<LayerView>
    decreases listing.len(),
{
    if listing.len() == 0 {
        seq![]
    } else {
        let before = listed_layers(root, listing.drop_last());
        let parts = words(listing.last());
        if parts.len() == 3 {
            before.push(layer_under(root, parts[0], parts[1], parts[2]))
        } else {
            before
        }
    }
}

/// The arguments with which `pacman` prints a package and what it needs, one package
/// to a line, without being root.
pub fn pacman_args(pkg_name: &str) -> (args: Vec<String>)
    ensures
        texts(args@) == seq!["-Sp"@, "--print-format"@, "%n %v %l"@, pkg_name@],
{
    let mut args: Vec<String> = Vec::new();
    args.push("-Sp".to_owned());
    args.push("--print-format".to_owned());
    args.push("%n %v %l".to_owned());
    args.push(pkg_name.to_owned());
    assert(texts(args@) =~= seq!["-Sp"@, "--print-format"@, "%n %v %l"@, pkg_name@]);
    args
}

impl CoreEngine {
    /// The layers of a package and of all that it needs, from what `pacman` did.
    pub fn resolve_dependencies(
        &self,
        pkg_name: &str,
        success: bool,
        stdout: &[u8],
        stderr: &[u8],
    ) -> (r: Result<Vec<PackageLayer>, EngineError>)
        ensures
            r is Ok <==> success,
            r matches Ok(layers) ==> layer_views(layers@) == listed_layers(
                self.cache_root@,
                lines(lossy(stdout@)),
            ),
            r matches Err(e) ==> (e matches EngineError::ResolutionFailed { package, reason }
                && package@ == pkg_name@ && reason@ == trim(lossy(stderr@))),
    {
        if !success {
            let complaint = text_of(stderr);
            return Err(
                EngineError::ResolutionFailed {
                    package: pkg_name.to_owned(),
                    reason: trimmed(complaint.as_str()),
                },
            );
        }
        let listing = text_of(stdout);
        Ok(self.layers_in(listing.as_str()))
    }

    /// The layers that a listing names.
    pub fn layers_in(&self, listing: &str) -> (layers: Vec<PackageLayer>)
        ensures
            layer_views(layers@) == listed_layers(self.cache_root@, lines(listing@)),
    {
        let all = split_lines(listing);
        let ghost root = self.cache_root@;
        let ghost whole = lines(listing@);
        let mut layers: Vec<PackageLayer> = Vec::new();
        assert(layer_views(layers@) == Seq::<LayerView>::empty());
        for i in 0..all.len()
            invariant
                root == self.cache_root@,
                texts(all@) == whole,
                layer_views(layers@) == listed_layers(root, whole.take(i as int)),
        {
            let ghost upto = whole.take(i + 1);
            assert(upto.drop_last() == whole.take(i as int));
            assert(upto.last() == all@[i as int]@);
            let parts = split_words(all[i].as_str());
            let ghost before = layer_views(layers@);
            let ghost w = words(upto.last());
            assert(texts(parts@) == w);
            if parts.len() == 3 {
                assert(parts@[0]@ == w[0] && parts@[1]@ == w[1] && parts@[2]@ == w[2]);
                let layer = self.layer(parts[0].as_str(), parts[1].as_str(), parts[2].as_str());
                layers.push(layer);
                assert(layer_views(layers@) == before.push(layer@));
            }
        }
        assert(whole.take(all@.len() as int) == whole);
        layers
    }

    fn layer(&self, name: &str, version: &str, url: &str) -> (layer: PackageLayer)
        ensures
            layer@ == layer_under(self.cache_root@, name@, version@, url@),
    {
        let dir = name.to_owned().concat("-").concat(version);
        PackageLayer {
            name: name.to_owned(),
            version: version.to_owned(),
            url: url.to_owned(),
            path: join_path(self.cache_root.as_slice(), dir.as_str().as_bytes()),
        }
    }
}

/// Whether a text is one word.
pub open spec fn is_word(w: Seq<char>) -> bool {
    w.len() > 0 && forall|i: int| 0 <= i < w.len() ==> !is_space(#[trigger] w[i])
}

/// A package as a listing names it.
pub struct Listed {
    pub name: Seq<char>,
    pub version: Seq<char>,
    pub url: Seq<char>,
}

impl Listed {
    /// Whether each of the three parts is one word.
    pub open spec fn is_plain(self) -> bool {
        is_word(self.name) && is_word(self.version) && is_word(self.url)
    }

    /// The line that the print format `%n %v %l` gives.
    pub open spec fn line(self) -> Seq<char> {
        self.name + " "@ + self.version + " "@ + self.url
    }
}

/// A listing of packages: their lines, each ended by a line feed.
pub open spec fn listing_of(packages: Seq<Listed>) -> Seq<char>
    decreases packages.len(),
{
    if packages.len() == 0 {
        seq![]
    } else {
        packages[0].line() + "\n"@ + listing_of(packages.skip(1))
    }
}

proof fn lemma_word_first(w: Seq<char>, rest: Seq<char>)
    requires
        is_word(w),
        rest.len() > 0 ==> is_space(rest[0]),
    ensures
        words(w + rest) == seq![w] + words(rest),
{
    let s = w + rest;
    assert forall|i: int| 0 <= i < w.len() implies !is_space(#[trigger] s[i]) by {
        assert(s[i] == w[i]);
    }
    if rest.len() > 0 {
        assert(s[w.len() as int] == rest[0]);
    }
    lemma_run_len_is(s, |c: char| is_space(c), w.len());
    assert(word_len(s) == w.len());
    assert(s.take(w.len() as int) == w);
    assert(s.skip(w.len() as int) == rest);
}

proof fn lemma_line_words(p: Listed)
    requires
        p.is_plain(),
    ensures
        words(p.line()) == seq![p.name, p.version, p.url],
{
    reveal_strlit(" ");
    let third = p.url;
    let second = p.version + (" "@ + third);
    let none = Seq::<char>::empty();
    assert(p.line() == p.name + (" "@ + second));
    lemma_word_first(p.name, " "@ + second);
    assert((" "@ + second).skip(1) == second);
    lemma_word_first(p.version, " "@ + third);
    assert((" "@ + third).skip(1) == third);
    assert(third == third + none);
    lemma_word_first(third, none);
    assert(words(none) == Seq::<Seq<char>>::empty());
    assert(words(p.line()) =~= seq![p.name, p.version, p.url]);
}

proof fn lemma_line_has_no_feed(p: Listed)
    requires
        p.is_plain(),
    ensures
        forall|i: int| 0 <= i < p.line().len() ==> #[trigger] p.line()[i] != '\n',
        p.line().last() != '\r',
        p.line().len() > 0,
{
    reveal_strlit(" ");
    let s = p.line();
    let a = p.name.len() as int;
    let b = p.version.len() as int;
    assert forall|i: int| 0 <= i < s.len() implies #[trigger] s[i] != '\n' by {
        if i < a {
            assert(s[i] == p.name[i]);
        } else if i == a {
        } else if i < a + 1 + b {
            assert(s[i] == p.version[i - a - 1]);
        } else if i == a + 1 + b {
        } else {
            assert(s[i] == p.url[i - a - b - 2]);
        }
    }
    assert(s.last() == p.url[p.url.len() - 1]);
}

proof fn lemma_listing_lines(packages: Seq<Listed>)
    requires
        forall|i: int| 0 <= i < packages.len() ==> (#[trigger] packages[i]).is_plain(),
    ensures
        lines(listing_of(packages)) == packages.map_values(|p: Listed| p.line()),
    decreases packages.len(),
{
    let expected = packages.map_values(|p: Listed| p.line());
    if packages.len() == 0 {
        assert(lines(listing_of(packages)) =~= expected);
    } else {
        reveal_strlit("\n");
        let p = packages[0];
        let more = packages.skip(1);
        assert forall|i: int| 0 <= i < more.len() implies (#[trigger] more[i]).is_plain() by {
            assert(more[i] == packages[i + 1]);
        }
        lemma_listing_lines(more);
        lemma_line_has_no_feed(p);
        let first = p.line();
        let s = listing_of(packages);
        let n = first.len();
        assert forall|i: int| 0 <= i < n implies #[trigger] s[i] != '\n' by {
            assert(s[i] == first[i]);
        }
        assert(s[n as int] == '\n');
        lemma_run_len_is(s, |c: char| c == '\n', n);
        assert(line_len(s) == n);
        assert(s.take(n as int) == first);
        assert(s.skip(n + 1 as int) == listing_of(more));
        assert(without_return(first) == first);
        assert(expected =~= seq![first] + more.map_values(|p: Listed| p.line()));
    }
}

proof fn lemma_listed(root: Seq<u8>, packages: Seq<Listed>)
    requires
        forall|i: int| 0 <= i < packages.len() ==> (#[trigger] packages[i]).is_plain(),
    ensures
        listed_layers(root, packages.map_values(|p: Listed| p.line())) == packages.map_values(
            |p: Listed| layer_under(root, p.name, p.version, p.url),
        ),
    decreases packages.len(),
{
    let all = packages.map_values(|p: Listed| p.line());
    let expected = packages.map_values(
        |p: Listed| layer_under(root, p.name, p.version, p.url),
    );
    if packages.len() == 0 {
        assert(listed_layers(root, all) =~= expected);
    } else {
        let front = packages.drop_last();
        assert forall|i: int| 0 <= i < front.len() implies (#[trigger] front[i]).is_plain() by {
            assert(front[i] == packages[i]);
        }
        lemma_listed(root, front);
        assert(all.drop_last() =~= front.map_values(|p: Listed| p.line()));
        let p = packages.last();
        assert(packages[packages.len() - 1].is_plain());
        lemma_line_words(p);
        assert(all.last() == p.line());
        assert(expected =~= front.map_values(
            |p: Listed| layer_under(root, p.name, p.version, p.url),
        ).push(layer_under(root, p.name, p.version, p.url)));
    }
}

/// Reading back a listing of packages gives one layer for each, in their order, with
/// the name, version and address that were printed.
pub proof fn law_listing_round_trip(root: Seq<u8>, packages: Seq<Listed>)
    requires
        forall|i: int| 0 <= i < packages.len() ==> (#[trigger] packages[i]).is_plain(),
    ensures
        listed_layers(root, lines(listing_of(packages))) == packages.map_values(
            |p: Listed| layer_under(root, p.name, p.version, p.url),
        ),
{
    lemma_listing_lines(packages);
    lemma_listed(root, packages);
}

/// The directory of a layer lies under the cache's own, unless its name is an
/// absolute path.
pub proof fn law_layer_under_root(
    root: Seq<u8>,
    name: Seq<char>,
    version: Seq<char>,
    url: Seq<char>,
)
    requires
        root.len() > 0,
        !is_absolute(encode_utf8(layer_dir_name(name, version))),
    ensures
        lies_under(layer_under(root, name, version, url).path, root),
{
    let dir = encode_utf8(layer_dir_name(name, version));
    law_join_components(root, dir);
    let whole = components(join(root, dir));
    assert(components(root) =~= whole.subrange(0, components(root).len() as int));
}

/// A layer is known by all that it holds.
pub proof fn law_layer_is_known_by_all_it_holds(list: Seq<PackageLayer>, i: int)
    requires
        0 <= i < list.len(),
    ensures
        layer_views(list).len() == list.len(),
        layer_views(list)[i].name == list[i].name@,
        layer_views(list)[i].version == list[i].version@,
        layer_views(list)[i].url == list[i].url@,
        layer_views(list)[i].path == list[i].path@,
{
}

/// A listing of packages gives as many layers, in their order, and each of them has the
/// name, the version and the address that were printed, and the directory of the
/// package's name and version, with `-` between them, in the cache.
pub proof fn law_listed_package_is_kept_whole(root: Seq<u8>, packages: Seq<Listed>, i: int)
    requires
        forall|k: int| 0 <= k < packages.len() ==> (#[trigger] packages[k]).is_plain(),
        0 <= i < packages.len(),
    ensures
        ({
            let layers = listed_layers(root, lines(listing_of(packages)));
            &&& layers.len() == packages.len()
            &&& layers[i].name == packages[i].name
            &&& layers[i].version == packages[i].version
            &&& layers[i].url == packages[i].url
            &&& layers[i].path == join(
                root,
                encode_utf8(packages[i].name + "-"@ + packages[i].version),
            )
        }),
{
    law_listing_round_trip(root, packages);
}

/// Of any listing, a line of three words adds one layer, behind those of the lines before
/// it, with these words as its name, version and address; any other line adds none.
pub proof fn law_line_adds_a_layer(root: Seq<u8>, listing: Seq<Seq<char>>, line: Seq<char>)
    ensures
        listed_layers(root, Seq::<Seq<char>>::empty()).len() == 0,
        words(line).len() != 3 ==> listed_layers(root, listing.push(line)) == listed_layers(
            root,
            listing,
        ),
        words(line).len() == 3 ==> {
            let before = listed_layers(root, listing);
            let after = listed_layers(root, listing.push(line));
            let n = before.len() as int;
            &&& after.len() == n + 1
            &&& after.take(n) == before
            &&& after[n].name == words(line)[0]
            &&& after[n].version == words(line)[1]
            &&& after[n].url == words(line)[2]
            &&& after[n].path == join(
                root,
                encode_utf8(words(line)[0] + "-"@ + words(line)[1]),
            )
        },
{
    let whole = listing.push(line);
    assert(whole.drop_last() =~= listing);
    assert(whole.last() == line);
    if words(line).len() == 3 {
        let before = listed_layers(root, listing);
        assert(listed_layers(root, whole).take(before.len() as int) =~= before);
    }
}

} // verus!
