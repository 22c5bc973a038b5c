//! Picking the buildable programs out of what a workspace holds.

use vstd::prelude::*;
use vstd::string::StringExecFns;

use crate::model::{Feature, FeatureView, Program, ProgramView};
use crate::sequences::{lemma_deep_view_push, lemma_deep_view_take};
use crate::text::copy_texts;

verus! {

/// One package of the workspace, as the workspace query tells of it: its
/// name, the names of its direct dependencies, the path of its manifest, and
/// its feature table in the order in which the query lists it.
#[derive(Debug, PartialEq, Eq)]
pub struct Candidate {
    pub name: String,
    pub dependencies: Vec<String>,
    pub manifest_path: String,
    pub features: Vec<(String, Vec<String>)>,
}

/// What a [`Candidate`] holds, as plain sequences.
pub struct CandidateView {
    pub name: Seq<char>,
    pub dependencies: Seq<Seq<char>>,
    pub manifest_path: Seq<char>,
    pub features: Seq<(Seq<char>, Seq<Seq<char>>)>,
}

impl View for Candidate {
    type V = CandidateView;

    open spec fn view(&self) -> CandidateView {
        CandidateView {
            name: self.name@,
            dependencies: self.dependencies.deep_view(),
            manifest_path: self.manifest_path@,
            features: self.features.deep_view(),
        }
    }
}

impl DeepView for Candidate {
    type V = CandidateView;

    open spec fn deep_view(&self) -> CandidateView {
        self@
    }
}

/// Why a scan gave no programs.
#[derive(Debug, PartialEq, Eq)]
pub enum ScanFailure {
    /// The workspace query itself could not be run.
    QueryFailed { reason: String },
    /// A program was found whose manifest lies in no directory.
    NoParentDirectory { manifest_path: String },
}

/// What a [`ScanFailure`] holds, as plain sequences.
pub enum ScanFailureView {
    QueryFailed { reason: Seq<char> },
    NoParentDirectory { manifest_path: Seq<char> },
}

impl View for ScanFailure {
    type V = ScanFailureView;

    open spec fn view(&self) -> ScanFailureView {
        match self {
            ScanFailure::QueryFailed { reason } => ScanFailureView::QueryFailed { reason: reason@ },
            ScanFailure::NoParentDirectory { manifest_path } => ScanFailureView::NoParentDirectory {
                manifest_path: manifest_path@,
            },
        }
    }
}

impl ScanFailureView {
    /// The failure in words.
    pub open spec fn message(self) -> Seq<char> {
        match self {
            ScanFailureView::QueryFailed { reason } => "Failed to run cargo metadata: "@ + reason,
            ScanFailureView::NoParentDirectory { manifest_path } => {
                "Failed to get parent directory: "@ + manifest_path
            },
        }
    }
}

impl ScanFailure {
    /// Words the failure.
    pub fn message(&self) -> (text: String)
        ensures
            text@ == self@.message(),
    {
        match self {
            ScanFailure::QueryFailed { reason } => {
                let mut text = "Failed to run cargo metadata: ".to_owned();
                text.append(reason.as_str());
                text
            },
            ScanFailure::NoParentDirectory { manifest_path } => {
                let mut text = "Failed to get parent directory: ".to_owned();
                text.append(manifest_path.as_str());
                text
            },
        }
    }
}

/// The package on which every buildable program depends directly.
pub open spec fn marker() -> Seq<char> {
    "anchor-lang"@
}

/// Whether `std::path::Path::starts_with` finds `base` to be a prefix of
/// `path`: whether the components of `base`, as whole components, are the
/// first components of `path`.
pub uninterp spec fn path_starts_with(path: Seq<char>, base: Seq<char>) -> bool;

/// What `std::path::Path::parent` gives for `path`: the path without its
/// last component, and nothing where it ends in a root or prefix or is empty.
pub uninterp spec fn path_parent(path: Seq<char>) -> Option<Seq<char>>;

/// Calls `Path::starts_with` on the two texts read as paths. Trusted: the
/// answer is that method's, which depends on the two paths alone.
#[verifier::external_body]
fn starts_with(path: &str, base: &str) -> (within: bool)
    ensures
        within == path_starts_with(path@, base@),
{
    std::path::Path::new(path).starts_with(std::path::Path::new(base))
}

/// Calls `Path::parent` on the text read as a path and hands the parent back
/// as text. Trusted: the answer is that method's, which depends on the path
/// alone; the parent of a path that is text is text.
#[verifier::external_body]
fn parent_of(path: &str) -> (parent: Option<String>)
    ensures
        parent.deep_view() == path_parent(path@),
{
    match std::path::Path::new(path).parent() {
        Some(directory) => Some(directory.to_string_lossy().into_owned()),
        None => None,
    }
}

impl CandidateView {
    /// The package depends directly on the marker package.
    pub open spec fn marked(self) -> bool {
        self.dependencies.contains(marker())
    }

    /// The feature table as features, in table order.
    pub open spec fn listed_features(self) -> Seq<FeatureView> {
        self.features.map_values(
            |f: (Seq<char>, Seq<Seq<char>>)| FeatureView { name: f.0, sub_features: f.1 },
        )
    }

    /// The program that the package is scanned as: its name and features,
    /// nothing selected, built from `directory`.
    pub open spec fn program_in(self, directory: Seq<char>) -> ProgramView {
        ProgramView {
            name: self.name,
            features: self.listed_features(),
            selected: Seq::new(self.features.len(), |i: int| false),
            path: directory,
        }
    }

    /// What a scan makes of the package, given whether its manifest lies
    /// under the root (`within`) and in which directory it lies: nothing
    /// unless the package is marked and lies under the root; else a program
    /// built from the directory; a failure where there is no directory.
    pub open spec fn weighed(self, within: bool, directory: Option<Seq<char>>) -> Result<
        Option<ProgramView>,
        ScanFailureView,
    > {
        if !(self.marked() && within) {
            Ok(None)
        } else {
            match directory {
                Some(d) => Ok(Some(self.program_in(d))),
                None => Err(
                    ScanFailureView::NoParentDirectory { manifest_path: self.manifest_path },
                ),
            }
        }
    }

    /// The package is a program of the workspace under `root`: it is marked
    /// and its manifest lies under `root`.
    pub open spec fn qualifies(self, root: Seq<char>) -> bool {
        self.marked() && path_starts_with(self.manifest_path, root)
    }

    /// The package qualifies and its manifest lies in no directory.
    pub open spec fn homeless(self, root: Seq<char>) -> bool {
        self.qualifies(root) && path_parent(self.manifest_path) is None
    }

    /// The program that a scan under `root` takes from the package, if any.
    pub open spec fn discovered(self, root: Seq<char>) -> Option<ProgramView> {
        match self.weighed(
            path_starts_with(self.manifest_path, root),
            path_parent(self.manifest_path),
        ) {
            Ok(taken) => taken,
            Err(_) => None,
        }
    }
}

/// What a decision on one package holds, as plain sequences.
pub open spec fn decision_view(taken: Result<Option<Program>, ScanFailure>) -> Result<
    Option<ProgramView>,
    ScanFailureView,
> {
    match taken {
        Ok(Some(program)) => Ok(Some(program@)),
        Ok(None) => Ok(None),
        Err(failure) => Err(failure@),
    }
}

/// The programs among `candidates`, in candidate order.
pub open spec fn discovered_programs(candidates: Seq<CandidateView>, root: Seq<char>) -> Seq<
    ProgramView,
> {
    candidates.filter_map(|c: CandidateView| c.discovered(root))
}

/// `at` is the first candidate that qualifies and has no directory.
pub open spec fn first_homeless(candidates: Seq<CandidateView>, root: Seq<char>, at: int) -> bool {
    &&& 0 <= at < candidates.len()
    &&& candidates[at].homeless(root)
    &&& forall|k: int| 0 <= k < at ==> !candidates[k].homeless(root)
}

/// `found` is what a scan of `candidates` under `root` comes to: where no
/// candidate qualifies without a directory, the programs among them; else
/// the failure that names the manifest of the first candidate that does.
pub open spec fn discovery(
    found: Result<Vec<Program>, ScanFailure>,
    candidates: Seq<CandidateView>,
    root: Seq<char>,
) -> bool {
    match found {
        Ok(programs) => {
            &&& forall|k: int| 0 <= k < candidates.len() ==> !candidates[k].homeless(root)
            &&& programs.deep_view() == discovered_programs(candidates, root)
        },
        Err(failure) => exists|at: int|
            first_homeless(candidates, root, at) && failure@ == (
            ScanFailureView::NoParentDirectory {
                manifest_path: #[trigger] candidates[at].manifest_path,
            }),
    }
}

/// Whether `names` holds the marker package.
pub fn has_marker(names: &Vec<String>) -> (found: bool)
    ensures
        found == names.deep_view().contains(marker()),
{
    let wanted = "anchor-lang".to_owned();
    let mut i: usize = 0;
    while i < names.len()
        invariant
            i <= names.len(),
            wanted@ == marker(),
            forall|k: int| 0 <= k < i ==> names.deep_view()[k] != marker(),
        decreases names.len() - i,
    {
        if names[i] == wanted {
            assert(names.deep_view()[i as int] == marker());
            return true;
        }
        i += 1;
    }
    false
}

/// Turns a feature table into features.
pub fn list_features(table: &Vec<(String, Vec<String>)>) -> (features: Vec<Feature>)
    ensures
        features.deep_view() == table.deep_view().map_values(
            |f: (Seq<char>, Seq<Seq<char>>)| FeatureView { name: f.0, sub_features: f.1 },
        ),
{
    let ghost wanted = table.deep_view().map_values(
        |f: (Seq<char>, Seq<Seq<char>>)| FeatureView { name: f.0, sub_features: f.1 },
    );
    let mut features: Vec<Feature> = Vec::new();
    let mut i: usize = 0;
    assert(features.deep_view() =~= wanted.take(0));
    while i < table.len()
        invariant
            i <= table.len(),
            wanted == table.deep_view().map_values(
                |f: (Seq<char>, Seq<Seq<char>>)| FeatureView { name: f.0, sub_features: f.1 },
            ),
            features.deep_view() == wanted.take(i as int),
        decreases table.len() - i,
    {
        let ghost before = features;
        let feature = Feature { name: table[i].0.clone(), sub_features: copy_texts(&table[i].1) };
        features.push(feature);
        proof {
            lemma_deep_view_push(before, features, feature);
            lemma_deep_view_take(*table, i as int);
            assert(wanted.take(i + 1) =~= wanted.take(i as int).push(wanted[i as int]));
        }
        i += 1;
    }
    assert(wanted.take(i as int) =~= wanted);
    features
}

impl Candidate {
    /// Decides on one package, given what is known of its manifest's path:
    /// whether it lies under the root of the scan, and the directory it lies
    /// in, if any. A package that is not marked or not under the root is
    /// passed over; any other becomes a program built from that directory,
    /// with its features in table order and none selected, and is a failure
    /// where there is no directory.
    pub fn weigh(&self, within: bool, directory: Option<String>) -> (taken: Result<
        Option<Program>,
        ScanFailure,
    >)
        ensures
            decision_view(taken) == self@.weighed(within, directory.deep_view()),
    {
        if !(has_marker(&self.dependencies) && within) {
            Ok(None)
        } else {
            match directory {
                Some(d) => {
                    let program = Program::new(self.name.clone(), list_features(&self.features), d);
                    assert(program@.selected =~= self@.program_in(d@).selected);
                    Ok(Some(program))
                },
                None => Err(
                    ScanFailure::NoParentDirectory { manifest_path: self.manifest_path.clone() },
                ),
            }
        }
    }
}

/// Picks the programs out of `candidates`: every package that depends
/// directly on the marker package and whose manifest lies under `root`, in
/// candidate order, each built from the directory of its manifest, with its
/// features in table order and none of them selected. Fails on the first such
/// package whose manifest lies in no directory.
pub fn discover(candidates: &Vec<Candidate>, root: &str) -> (found: Result<
    Vec<Program>,
    ScanFailure,
>)
    ensures
        discovery(found, candidates.deep_view(), root@),
{
    let ghost all = candidates.deep_view();
    let ghost pick = |c: CandidateView| c.discovered(root@);
    let mut programs: Vec<Program> = Vec::new();
    let mut k: usize = 0;
    assert(programs.deep_view() =~= all.take(0).filter_map(pick));
    while k < candidates.len()
        invariant
            k <= candidates.len(),
            all == candidates.deep_view(),
            pick == (|c: CandidateView| c.discovered(root@)),
            forall|j: int| 0 <= j < k ==> !all[j].homeless(root@),
            programs.deep_view() == all.take(k as int).filter_map(pick),
        decreases candidates.len() - k,
    {
        proof {
            lemma_deep_view_take(*candidates, k as int);
            all.lemma_filter_map_take_succ(pick, k as int);
        }
        let candidate = &candidates[k];
        let within = starts_with(candidate.manifest_path.as_str(), root);
        let directory = parent_of(candidate.manifest_path.as_str());
        match candidate.weigh(within, directory) {
            Ok(Some(program)) => {
                let ghost before = programs;
                programs.push(program);
                proof {
                    lemma_deep_view_push(before, programs, program);
                    assert(pick(all[k as int]) == Some(program@));
                }
            },
            Ok(None) => {
                assert(pick(all[k as int]) == None::<ProgramView>);
            },
            Err(failure) => {
                proof {
                    assert(first_homeless(all, root@, k as int));
                }
                return Err(failure);
            },
        }
        k += 1;
    }
    assert(all.take(k as int) =~= all);
    Ok(programs)
}

/// Scans a workspace from what its query gave. Fails where the query could
/// not be run, with the reason it gave; else picks the programs out of the
/// packages as [`discover`] does.
pub fn scan(query: Result<Vec<Candidate>, String>, root: &str) -> (found: Result<
    Vec<Program>,
    ScanFailure,
>)
    ensures
        match query {
            Err(reason) => found is Err && found->Err_0@ == (ScanFailureView::QueryFailed {
                reason: reason@,
            }),
            Ok(candidates) => discovery(found, candidates.deep_view(), root@),
        },
{
    match query {
        Err(reason) => Err(ScanFailure::QueryFailed { reason }),
        Ok(candidates) => discover(&candidates, root),
    }
}

} // verus!
