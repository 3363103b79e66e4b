//! Fixtures: two small trees that show each status, laid out below a
//! directory of their own.

use crate::data::{Status, StatusView};
use crate::path::{join, joined};
use vstd::prelude::*;

verus! {

/// Whether `c` is a letter or a digit of ASCII.
pub open spec fn is_alphanumeric(c: char) -> bool {
    let n = c as int;
    ||| 0x30 <= n <= 0x39
    ||| 0x41 <= n <= 0x5a
    ||| 0x61 <= n <= 0x7a
}

/// Whether `s` is made of `size` letters and digits of ASCII.
pub open spec fn is_token(s: Seq<char>, size: nat) -> bool {
    s.len() == size && forall|i: int| 0 <= i < s.len() ==> is_alphanumeric(#[trigger] s[i])
}

/// Draws `size` characters with `rand::Rng::sample_iter` from
/// `rand::distributions::Alphanumeric`, on the generator that
/// `rand::thread_rng` hands out. Trusted: there are `size` of them, each a
/// letter or a digit of ASCII. Which ones is left to chance, and two calls
/// need not agree.
#[verifier::external_body]
pub fn random_string(size: usize) -> (s: String)
    ensures
        is_token(s@, size as nat),
{
    let rng = rand::thread_rng();
    rand::Rng::sample_iter(rng, &rand::distributions::Alphanumeric).take(size).map(
        char::from,
    ).collect()
}

/// One file of a fixture: its relative path, and the status that the two
/// trees are to show for it.
#[derive(Debug)]
pub struct FileSpec {
    pub path: String,
    pub status: Status,
}

/// What a `FileSpec` stands for.
pub struct FileSpecView {
    pub path: Seq<char>,
    pub status: StatusView,
}

impl View for FileSpec {
    type V = FileSpecView;

    open spec fn view(&self) -> FileSpecView {
        FileSpecView { path: self.path@, status: self.status@ }
    }
}

impl DeepView for FileSpec {
    type V = FileSpecView;

    open spec fn deep_view(&self) -> FileSpecView {
        self@
    }
}

/// A file to be written for a fixture.
#[derive(Debug)]
pub struct Planted {
    pub path: String,
    pub content: String,
}

/// Where a file of a fixture goes, and whether it holds what the file
/// before it holds.
pub struct Place {
    pub path: Seq<char>,
    pub twin: bool,
}

/// The places of the files that show the status of `spec`: one on each
/// side with one content for files in sync, one on each side for files that
/// differ, one on the side that has the file for a missing one, none for an
/// invalid one.
pub open spec fn places_of(home: Seq<char>, repo: Seq<char>, spec: FileSpecView) -> Seq<Place> {
    let h = joined(home, spec.path);
    let r = joined(repo, spec.path);
    match spec.status {
        StatusView::Synced => seq![Place { path: h, twin: false }, Place { path: r, twin: true }],
        StatusView::Diff => seq![Place { path: h, twin: false }, Place { path: r, twin: false }],
        StatusView::MissingHome => seq![Place { path: r, twin: false }],
        StatusView::MissingRepo => seq![Place { path: h, twin: false }],
        StatusView::Invalid(_) => Seq::empty(),
    }
}

/// The places of the files of a fixture, spec after spec.
pub open spec fn layout(home: Seq<char>, repo: Seq<char>, specs: Seq<FileSpecView>) -> Seq<Place>
    decreases specs.len(),
{
    if specs.len() == 0 {
        Seq::empty()
    } else {
        layout(home, repo, specs.drop_last()) + places_of(home, repo, specs.last())
    }
}

/// Whether the files `planted` lie at `places`, each with ten letters and
/// digits for its content, a twin with the content of the file before it.
pub open spec fn laid_out(planted: Seq<Planted>, places: Seq<Place>) -> bool {
    &&& planted.len() == places.len()
    &&& forall|i: int|
        0 <= i < planted.len() ==> {
            &&& (#[trigger] planted[i]).path@ == places[i].path
            &&& is_token(planted[i].content@, 10)
            &&& places[i].twin ==> i > 0 && planted[i].content@ == planted[i - 1].content@
        }
}

/// A fixture: the files to show, and the directories they go to.
#[derive(Debug)]
pub struct TestContext {
    pub file_specs: Vec<FileSpec>,
    pub temp_dir: String,
    pub home_dir: String,
    pub repo_dir: String,
}

impl TestContext {
    /// The fixture for `file_specs` below a directory of its own, whose
    /// name is left to chance; home and the repository lie side by side in
    /// it.
    pub fn new(file_specs: Vec<FileSpec>) -> (c: Self)
        ensures
            c.file_specs == file_specs,
            exists|token: Seq<char>| is_token(token, 10) && c.temp_dir@ == "tmp-"@ + token,
            c.home_dir@ == joined(c.temp_dir@, "home"@),
            c.repo_dir@ == joined(c.temp_dir@, "repo"@),
    {
        let token = random_string(10);
        let temp_dir = String::from_str("tmp-").concat(token.as_str());
        let home_dir = join(temp_dir.as_str(), "home");
        let repo_dir = join(temp_dir.as_str(), "repo");
        TestContext { file_specs, temp_dir, home_dir, repo_dir }
    }

    /// The files to write for the fixture, in the order of its specs: the
    /// places are decided here, the contents are left to chance.
    pub fn setup(&self) -> (planted: Vec<Planted>)
        ensures
            laid_out(planted@, layout(self.home_dir@, self.repo_dir@, self.file_specs.deep_view())),
    {
        let mut planted: Vec<Planted> = Vec::new();
        let mut i: usize = 0;
        while i < self.file_specs.len()
            invariant
                i <= self.file_specs.len(),
                laid_out(
                    planted@,
                    layout(
                        self.home_dir@,
                        self.repo_dir@,
                        self.file_specs.deep_view().take(i as int),
                    ),
                ),
            decreases self.file_specs.len() - i,
        {
            let spec = &self.file_specs[i];
            let ghost before = planted@;
            let ghost places = layout(
                self.home_dir@,
                self.repo_dir@,
                self.file_specs.deep_view().take(i as int),
            );
            proof {
                assert(self.file_specs.deep_view().take(i + 1).drop_last()
                    =~= self.file_specs.deep_view().take(i as int));
                assert(self.file_specs.deep_view().take(i + 1).last() == spec@);
            }
            match spec.status {
                Status::Synced => {
                    let content = random_string(10);
                    planted.push(
                        Planted { path: self.home_path(spec.path.as_str()), content: content.clone() },
                    );
                    planted.push(Planted { path: self.repo_path(spec.path.as_str()), content });
                },
                Status::Diff => {
                    planted.push(
                        Planted {
                            path: self.home_path(spec.path.as_str()),
                            content: random_string(10),
                        },
                    );
                    planted.push(
                        Planted {
                            path: self.repo_path(spec.path.as_str()),
                            content: random_string(10),
                        },
                    );
                },
                Status::MissingHome => {
                    planted.push(
                        Planted {
                            path: self.repo_path(spec.path.as_str()),
                            content: random_string(10),
                        },
                    );
                },
                Status::MissingRepo => {
                    planted.push(
                        Planted {
                            path: self.home_path(spec.path.as_str()),
                            content: random_string(10),
                        },
                    );
                },
                Status::Invalid(_) => {},
            }
            proof {
                let added = places_of(self.home_dir@, self.repo_dir@, spec@);
                let all = places + added;
                assert(planted@.len() == all.len());
                assert forall|k: int| 0 <= k < planted@.len() implies {
                    &&& (#[trigger] planted@[k]).path@ == all[k].path
                    &&& is_token(planted@[k].content@, 10)
                    &&& all[k].twin ==> k > 0 && planted@[k].content@ == planted@[k - 1].content@
                } by {
                    if k < before.len() {
                        assert(planted@[k] == before[k]);
                        assert(all[k] == places[k]);
                        if k > 0 {
                            assert(planted@[k - 1] == before[k - 1]);
                        }
                    } else {
                        assert(all[k] == added[k - before.len()]);
                    }
                }
            }
            i += 1;
        }
        assert(self.file_specs.deep_view().take(i as int) =~= self.file_specs.deep_view());
        planted
    }

    /// Where the relative path `path` lies below the fixture's home.
    pub fn home_path(&self, path: &str) -> (r: String)
        ensures
            r@ == joined(self.home_dir@, path@),
    {
        join(self.home_dir.as_str(), path)
    }

    /// Where the relative path `path` lies in the fixture's repository.
    pub fn repo_path(&self, path: &str) -> (r: String)
        ensures
            r@ == joined(self.repo_dir@, path@),
    {
        join(self.repo_dir.as_str(), path)
    }
}

} // verus!
