//! Binaries: which program of a package is run.

use crate::engine::CoreEngine;
use crate::layers::PackageLayer;
use crate::outside::{lossy, text_of};
use crate::paths::{join, join_path};
use crate::text::{join_texts, joined, opt_str, same, texts};
use vstd::prelude::*;
use vstd::utf8::encode_utf8;

verus! {

/// One entry of a layer's `usr/bin` directory.
#[derive(Debug)]
pub struct BinEntry {
    /// The raw bytes of the file's name.
    pub name: Vec<u8>,
    pub is_file: bool,
    pub is_symlink: bool,
}

impl BinEntry {
    /// Whether the entry can be a program.
    pub open spec fn is_program(&self) -> bool {
        self.is_file || self.is_symlink
    }
}

/// The names of the programs among directory entries, in their order.
pub open spec fn program_names(entries: Seq<BinEntry>) -> Seq<Seq<char>>
    decreases entries.len(),
{
    if entries.len() == 0 {
        seq![]
    } else {
        let before = program_names(entries.drop_last());
        if entries.last().is_program() {
            before.push(lossy(entries.last().name@))
        } else {
            before
        }
    }
}

/// The programs of one layer; a layer without a `usr/bin` directory has none.
pub open spec fn layer_programs(listing: Option<Vec<BinEntry>>) -> Seq<Seq<char>> {
    match listing {
        Some(entries) => program_names(entries@),
        None => seq![],
    }
}

/// The programs of all layers.
pub open spec fn all_programs(listings: Seq<Option<Vec<BinEntry>>>) -> Seq<Seq<char>>
    decreases listings.len(),
{
    if listings.len() == 0 {
        seq![]
    } else {
        all_programs(listings.drop_last()) + layer_programs(listings.last())
    }
}

/// The programs of the layers of the package itself.
pub open spec fn own_programs(
    pkg_name: Seq<char>,
    layers: Seq<PackageLayer>,
    listings: Seq<Option<Vec<BinEntry>>>,
) -> Seq<Seq<char>>
    decreases listings.len(),
{
    if listings.len() == 0 {
        seq![]
    } else {
        let before = own_programs(pkg_name, layers, listings.drop_last());
        if layers[listings.len() - 1].name@ == pkg_name {
            before + layer_programs(listings.last())
        } else {
            before
        }
    }
}

/// What the choice of a program comes to.
pub enum Choice {
    /// This program is run.
    Run(Seq<char>),
    /// No layer has the program that was asked for.
    NotFound,
    /// The package has several programs and none of its own name.
    Ambiguous,
    /// No layer has a program.
    NoBinaries,
    /// Only other packages have programs.
    OnlyInDependencies,
}

/// The program to run: the one asked for, else the package's namesake, else its only
/// program. The programs of other packages are run only if they are asked for.
pub open spec fn choice(
    pkg_name: Seq<char>,
    all: Seq<Seq<char>>,
    own: Seq<Seq<char>>,
    explicit_bin: Option<Seq<char>>,
) -> Choice {
    match explicit_bin {
        Some(bin) => if all.contains(bin) {
            Choice::Run(bin)
        } else {
            Choice::NotFound
        },
        None => if own.contains(pkg_name) {
            Choice::Run(pkg_name)
        } else if own.len() == 1 {
            Choice::Run(own[0])
        } else if own.len() > 1 {
            Choice::Ambiguous
        } else if all.len() == 0 {
            Choice::NoBinaries
        } else {
            Choice::OnlyInDependencies
        },
    }
}

/// Why no program could be chosen.
#[derive(Debug)]
pub enum BinaryError {
    NotFound { binary: String, package: String, available: Vec<String> },
    Ambiguous { package: String, candidates: Vec<String> },
    NoBinaries { package: String },
    OnlyInDependencies { package: String, candidates: Vec<String> },
}

/// The choice and the error that go with each other.
pub open spec fn is_answer(
    r: Result<String, BinaryError>,
    pkg_name: Seq<char>,
    all: Seq<Seq<char>>,
    own: Seq<Seq<char>>,
    explicit_bin: Option<Seq<char>>,
) -> bool {
    match choice(pkg_name, all, own, explicit_bin) {
        Choice::Run(bin) => r matches Ok(name) && name@ == bin,
        Choice::NotFound => r matches Err(BinaryError::NotFound { binary, package, available })
            && binary@ == explicit_bin->0 && package@ == pkg_name && texts(available@) == all,
        Choice::Ambiguous => r matches Err(BinaryError::Ambiguous { package, candidates })
            && package@ == pkg_name && texts(candidates@) == own,
        Choice::NoBinaries => r matches Err(BinaryError::NoBinaries { package }) && package@
            == pkg_name,
        Choice::OnlyInDependencies => r matches Err(
            BinaryError::OnlyInDependencies { package, candidates },
        ) && package@ == pkg_name && texts(candidates@) == all,
    }
}

impl BinaryError {
    /// The text of the message.
    pub open spec fn text(&self) -> Seq<char> {
        match self {
            BinaryError::NotFound { binary, package, available } => "Binary '"@ + binary@
                + "' not found in package '"@ + package@ + "'. "@ + (if available@.len() == 0 {
                "No binaries found in any layer"@
            } else {
                "Available binaries: "@ + joined(texts(available@), ", "@)
            }),
            BinaryError::Ambiguous { package, candidates } =>
                "Multiple binaries found for package '"@ + package@ + "': "@ + joined(
                texts(candidates@),
                ", "@,
            ) + ". Use --bin to select one."@,
            BinaryError::NoBinaries { package } => "No binaries found for package '"@ + package@
                + "'. The package may not provide executables."@,
            BinaryError::OnlyInDependencies { package, candidates } =>
                "No binaries found in primary package '"@ + package@
                + "'. Available in dependencies: "@ + joined(texts(candidates@), ", "@)
                + ". Use --bin to specify."@,
        }
    }

    /// The message for the user.
    pub fn message(&self) -> (m: String)
        ensures
            m@ == self.text(),
    {
        match self {
            BinaryError::NotFound { binary, package, available } => {
                let mut m = "Binary '".to_owned();
                m.append(binary.as_str());
                m.append("' not found in package '");
                m.append(package.as_str());
                m.append("'. ");
                let hint = if available.len() == 0 {
                    "No binaries found in any layer".to_owned()
                } else {
                    let names = join_texts(available, ", ");
                    "Available binaries: ".to_owned().concat(names.as_str())
                };
                m.append(hint.as_str());
                m
            },
            BinaryError::Ambiguous { package, candidates } => {
                let mut m = "Multiple binaries found for package '".to_owned();
                m.append(package.as_str());
                m.append("': ");
                let names = join_texts(candidates, ", ");
                m.append(names.as_str());
                m.append(". Use --bin to select one.");
                m
            },
            BinaryError::NoBinaries { package } => {
                let mut m = "No binaries found for package '".to_owned();
                m.append(package.as_str());
                m.append("'. The package may not provide executables.");
                m
            },
            BinaryError::OnlyInDependencies { package, candidates } => {
                let mut m = "No binaries found in primary package '".to_owned();
                m.append(package.as_str());
                m.append("'. Available in dependencies: ");
                let names = join_texts(candidates, ", ");
                m.append(names.as_str());
                m.append(". Use --bin to specify.");
                m
            },
        }
    }
}

/// The directory in which a layer keeps its programs.
pub fn bin_dir(layer: &PackageLayer) -> (dir: Vec<u8>)
    ensures
        dir@ == join(join(layer.path@, encode_utf8("usr"@)), encode_utf8("bin"@)),
{
    let usr = join_path(layer.path.as_slice(), "usr".as_bytes());
    join_path(usr.as_slice(), "bin".as_bytes())
}

/// Whether a list holds a text.
fn holds(list: &Vec<String>, item: &str) -> (r: bool)
    ensures
        r == texts(list@).contains(item@),
{
    for i in 0..list.len()
        invariant
            forall|k: int| 0 <= k < i ==> #[trigger] list@[k]@ != item@,
    {
        if same(list[i].as_str(), item) {
            assert(texts(list@)[i as int] == item@);
            return true;
        }
    }
    proof {
        if texts(list@).contains(item@) {
            let k = choose|k: int| 0 <= k < list@.len() && texts(list@)[k] == item@;
            assert(list@[k]@ == item@);
        }
    }
    false
}

/// A copy of the text of one item.
fn item(list: &Vec<String>, i: usize) -> (s: String)
    requires
        i < list@.len(),
    ensures
        s@ == texts(list@)[i as int],
{
    list[i].clone()
}

/// The program to run, from the names of all programs and of the package's own.
pub fn choose_binary(
    pkg_name: &str,
    all: Vec<String>,
    own: Vec<String>,
    explicit_bin: Option<&str>,
) -> (r: Result<String, BinaryError>)
    ensures
        is_answer(r, pkg_name@, texts(all@), texts(own@), opt_str(explicit_bin)),
{
    if let Some(bin) = explicit_bin {
        if holds(&all, bin) {
            return Ok(bin.to_owned());
        }
        return Err(
            BinaryError::NotFound {
                binary: bin.to_owned(),
                package: pkg_name.to_owned(),
                available: all,
            },
        );
    }
    if holds(&own, pkg_name) {
        return Ok(pkg_name.to_owned());
    }
    if own.len() == 1 {
        return Ok(item(&own, 0));
    }
    if own.len() > 1 {
        return Err(BinaryError::Ambiguous { package: pkg_name.to_owned(), candidates: own });
    }
    if all.len() == 0 {
        return Err(BinaryError::NoBinaries { package: pkg_name.to_owned() });
    }
    Err(BinaryError::OnlyInDependencies { package: pkg_name.to_owned(), candidates: all })
}

/// The programs among directory entries.
fn collect_programs(entries: &Vec<BinEntry>) -> (names: Vec<String>)
    ensures
        texts(names@) == program_names(entries@),
{
    let mut names: Vec<String> = Vec::new();
    assert(texts(names@) == Seq::<Seq<char>>::empty());
    for i in 0..entries.len()
        invariant
            texts(names@) == program_names(entries@.take(i as int)),
    {
        let ghost upto = entries@.take(i + 1);
        assert(upto.drop_last() == entries@.take(i as int));
        assert(upto.last() == entries@[i as int]);
        if entries[i].is_file || entries[i].is_symlink {
            let ghost before = texts(names@);
            let name = text_of(entries[i].name.as_slice());
            names.push(name);
            assert(texts(names@) == before.push(name@));
        }
    }
    assert(entries@.take(entries@.len() as int) == entries@);
    names
}

/// Appends copies of all items of a list to another.
fn append_all(out: &mut Vec<String>, more: &Vec<String>)
    ensures
        texts(final(out)@) == texts(old(out)@) + texts(more@),
{
    let ghost start = texts(out@);
    assert(start + texts(more@).take(0) == start);
    for i in 0..more.len()
        invariant
            texts(out@) == start + texts(more@).take(i as int),
    {
        let ghost before = texts(out@);
        let copy = item(more, i);
        out.push(copy);
        assert(texts(out@) == before.push(copy@));
        assert(texts(more@).take(i + 1) == texts(more@).take(i as int).push(copy@));
        assert(before.push(copy@) == start + texts(more@).take(i + 1));
    }
    assert(texts(more@).take(more@.len() as int) == texts(more@));
}

impl CoreEngine {
    /// Resolves the binary name to execute from a package, given what the `usr/bin`
    /// directory of each layer holds.
    pub fn resolve_binary_name(
        &self,
        pkg_name: &str,
        layers: &[PackageLayer],
        listings: &Vec<Option<Vec<BinEntry>>>,
        explicit_bin: Option<&str>,
    ) -> (r: Result<String, BinaryError>)
        requires
            layers@.len() == listings@.len(),
        ensures
            is_answer(
                r,
                pkg_name@,
                all_programs(listings@),
                own_programs(pkg_name@, layers@, listings@),
                opt_str(explicit_bin),
            ),
    {
        let mut all: Vec<String> = Vec::new();
        let mut own: Vec<String> = Vec::new();
        assert(texts(all@) == Seq::<Seq<char>>::empty());
        for i in 0..listings.len()
            invariant
                layers@.len() == listings@.len(),
                texts(all@) == all_programs(listings@.take(i as int)),
                texts(own@) == own_programs(pkg_name@, layers@, listings@.take(i as int)),
        {
            let ghost upto = listings@.take(i + 1);
            assert(upto.drop_last() == listings@.take(i as int));
            assert(upto.last() == listings@[i as int]);
            match &listings[i] {
                Some(entries) => {
                    let names = collect_programs(entries);
                    append_all(&mut all, &names);
                    if same(layers[i].name.as_str(), pkg_name) {
                        append_all(&mut own, &names);
                    }
                },
                None => {
                    assert(texts(all@) + Seq::<Seq<char>>::empty() == texts(all@));
                    assert(texts(own@) + Seq::<Seq<char>>::empty() == texts(own@));
                },
            }
        }
        assert(listings@.take(listings@.len() as int) == listings@);
        choose_binary(pkg_name, all, own, explicit_bin)
    }
}

/// A program that is asked for by name is run if some layer has it, and no other
/// program is run in its place.
pub proof fn law_explicit_binary_is_obeyed(
    pkg_name: Seq<char>,
    all: Seq<Seq<char>>,
    own: Seq<Seq<char>>,
    bin: Seq<char>,
)
    ensures
        all.contains(bin) ==> choice(pkg_name, all, own, Some(bin)) == Choice::Run(bin),
        !all.contains(bin) ==> choice(pkg_name, all, own, Some(bin)) is NotFound,
{
}

/// Unless a program is asked for by name, only the package's own programs are run, and a
/// package without any gives an error.
pub proof fn law_only_own_programs_run_unasked(
    pkg_name: Seq<char>,
    all: Seq<Seq<char>>,
    own: Seq<Seq<char>>,
)
    ensures
        choice(pkg_name, all, own, None) matches Choice::Run(bin) ==> own.contains(bin),
        own.len() == 0 ==> !(choice(pkg_name, all, own, None) is Run),
{
    if own.len() == 1 {
        assert(own.contains(own[0]));
    }
}

proof fn lemma_own_among_all(
    pkg_name: Seq<char>,
    layers: Seq<PackageLayer>,
    listings: Seq<Option<Vec<BinEntry>>>,
    bin: Seq<char>,
)
    requires
        own_programs(pkg_name, layers, listings).contains(bin),
    ensures
        all_programs(listings).contains(bin),
    decreases listings.len(),
{
    if listings.len() > 0 {
        let front = listings.drop_last();
        let more = layer_programs(listings.last());
        let own = own_programs(pkg_name, layers, listings);
        let before = own_programs(pkg_name, layers, front);
        let i = choose|i: int| 0 <= i < own.len() && own[i] == bin;
        let whole = all_programs(front) + more;
        if i < before.len() {
            assert(before[i] == bin);
            lemma_own_among_all(pkg_name, layers, front, bin);
            let j = choose|j: int|
                0 <= j < all_programs(front).len() && all_programs(front)[j] == bin;
            assert(whole[j] == bin);
        } else {
            assert(more[i - before.len()] == bin);
            assert(whole[all_programs(front).len() + i - before.len()] == bin);
        }
    }
}

/// A program that is run exists in some layer.
pub proof fn law_chosen_binary_exists(
    pkg_name: Seq<char>,
    layers: Seq<PackageLayer>,
    listings: Seq<Option<Vec<BinEntry>>>,
    explicit_bin: Option<Seq<char>>,
)
    requires
        layers.len() == listings.len(),
    ensures
        choice(
            pkg_name,
            all_programs(listings),
            own_programs(pkg_name, layers, listings),
            explicit_bin,
        ) matches Choice::Run(bin) ==> all_programs(listings).contains(bin),
{
    let all = all_programs(listings);
    let own = own_programs(pkg_name, layers, listings);
    if let Choice::Run(bin) = choice(pkg_name, all, own, explicit_bin) {
        if explicit_bin is None {
            if own.contains(pkg_name) {
                lemma_own_among_all(pkg_name, layers, listings, pkg_name);
            } else {
                assert(own.contains(own[0]));
                lemma_own_among_all(pkg_name, layers, listings, own[0]);
            }
        }
    }
}

/// Without a program asked for, the answer is the package's namesake wherever the package
/// has it, else its only program, and otherwise an error that lists what there is. An
/// answer is a program exactly in the first two cases.
pub proof fn law_answer_without_a_request(
    r: Result<String, BinaryError>,
    pkg_name: Seq<char>,
    all: Seq<Seq<char>>,
    own: Seq<Seq<char>>,
)
    requires
        is_answer(r, pkg_name, all, own, None),
    ensures
        r is Ok <==> own.contains(pkg_name) || own.len() == 1,
        r matches Ok(bin) ==> bin@ == (if own.contains(pkg_name) {
            pkg_name
        } else {
            own[0]
        }),
        own.len() > 1 && !own.contains(pkg_name) ==> (r matches Err(
            BinaryError::Ambiguous { package, candidates },
        ) && package@ == pkg_name && texts(candidates@) == own),
        own.len() == 0 && all.len() == 0 ==> (r matches Err(BinaryError::NoBinaries { package })
            && package@ == pkg_name),
        own.len() == 0 && all.len() > 0 ==> (r matches Err(
            BinaryError::OnlyInDependencies { package, candidates },
        ) && package@ == pkg_name && texts(candidates@) == all),
{
}

/// With a program asked for, the answer is that program exactly if some layer has it, and
/// otherwise the error that lists what there is.
pub proof fn law_answer_to_a_request(
    r: Result<String, BinaryError>,
    pkg_name: Seq<char>,
    all: Seq<Seq<char>>,
    own: Seq<Seq<char>>,
    bin: Seq<char>,
)
    requires
        is_answer(r, pkg_name, all, own, Some(bin)),
    ensures
        r is Ok <==> all.contains(bin),
        r matches Ok(name) ==> name@ == bin,
        r is Err ==> (r matches Err(BinaryError::NotFound { binary, package, available }) && binary@
            == bin && package@ == pkg_name && texts(available@) == all),
{
}

/// A directory's programs are its files and links, under their names and in their order.
pub proof fn law_files_and_links_are_programs(entries: Seq<BinEntry>, entry: BinEntry)
    ensures
        program_names(Seq::<BinEntry>::empty()).len() == 0,
        entry.is_file || entry.is_symlink ==> program_names(entries.push(entry)) == program_names(
            entries,
        ).push(lossy(entry.name@)),
        !entry.is_file && !entry.is_symlink ==> program_names(entries.push(entry))
            == program_names(entries),
{
    assert(entries.push(entry).drop_last() =~= entries);
}

/// Each further layer adds its programs to all, and to the package's own exactly if it is
/// of the package's name; a layer without a directory of programs adds none.
pub proof fn law_layer_adds_its_programs(
    pkg_name: Seq<char>,
    layers: Seq<PackageLayer>,
    listings: Seq<Option<Vec<BinEntry>>>,
    layer: PackageLayer,
    entries: Vec<BinEntry>,
)
    requires
        layers.len() == listings.len(),
    ensures
        all_programs(Seq::<Option<Vec<BinEntry>>>::empty()).len() == 0,
        own_programs(pkg_name, layers, Seq::<Option<Vec<BinEntry>>>::empty()).len() == 0,
        all_programs(listings.push(None)) == all_programs(listings),
        all_programs(listings.push(Some(entries))) == all_programs(listings) + program_names(
            entries@,
        ),
        own_programs(pkg_name, layers.push(layer), listings.push(None)) == own_programs(
            pkg_name,
            layers,
            listings,
        ),
        own_programs(pkg_name, layers.push(layer), listings.push(Some(entries))) == (
        if layer.name@ == pkg_name {
            own_programs(pkg_name, layers, listings) + program_names(entries@)
        } else {
            own_programs(pkg_name, layers, listings)
        }),
{
    let some: Option<Vec<BinEntry>> = Some(entries);
    let none: Option<Vec<BinEntry>> = None;
    assert(listings.push(some).drop_last() =~= listings);
    assert(listings.push(none).drop_last() =~= listings);
    lemma_own_of_more_layers(pkg_name, layers, layer, listings);
    assert(all_programs(listings) + Seq::<Seq<char>>::empty() =~= all_programs(listings));
    let own = own_programs(pkg_name, layers, listings);
    assert(own + Seq::<Seq<char>>::empty() =~= own);
}

proof fn lemma_own_of_more_layers(
    pkg_name: Seq<char>,
    layers: Seq<PackageLayer>,
    layer: PackageLayer,
    listings: Seq<Option<Vec<BinEntry>>>,
)
    requires
        listings.len() <= layers.len(),
    ensures
        own_programs(pkg_name, layers.push(layer), listings) == own_programs(
            pkg_name,
            layers,
            listings,
        ),
    decreases listings.len(),
{
    if listings.len() > 0 {
        lemma_own_of_more_layers(pkg_name, layers, layer, listings.drop_last());
        assert(layers.push(layer)[listings.len() - 1] == layers[listings.len() - 1]);
    }
}

/// A message holds all that the error does, between fixed words.
pub proof fn law_binary_messages(binary: String, package: String, list: Vec<String>)
    ensures
        list@.len() == 0 ==> (BinaryError::NotFound { binary, package, available: list }).text()
            == "Binary '"@ + binary@ + "' not found in package '"@ + package@ + "'. "@
            + "No binaries found in any layer"@,
        list@.len() > 0 ==> (BinaryError::NotFound { binary, package, available: list }).text()
            == "Binary '"@ + binary@ + "' not found in package '"@ + package@ + "'. "@ + (
        "Available binaries: "@ + joined(texts(list@), ", "@)),
        (BinaryError::Ambiguous { package, candidates: list }).text()
            == "Multiple binaries found for package '"@ + package@ + "': "@ + joined(
            texts(list@),
            ", "@,
        ) + ". Use --bin to select one."@,
        (BinaryError::NoBinaries { package }).text() == "No binaries found for package '"@
            + package@ + "'. The package may not provide executables."@,
        (BinaryError::OnlyInDependencies { package, candidates: list }).text()
            == "No binaries found in primary package '"@ + package@
            + "'. Available in dependencies: "@ + joined(texts(list@), ", "@)
            + ". Use --bin to specify."@,
{
}

} // verus!
