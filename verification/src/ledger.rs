use crate::target::Target;
use vstd::prelude::*;
use vstd::string::StringExecFns;

verus! {

/// Where a finished download of `title` is kept.
pub open spec fn completed_path(title: Seq<char>) -> Seq<char> {
    "downloads/"@ + title + ".torrent"@
}

/// The marker that another tool leaves once it has taken a download of `title` over.
pub open spec fn marker_path(title: Seq<char>) -> Seq<char> {
    "downloads/"@ + title + ".torrent.added"@
}

/// A title is handled when its download or its marker is among the existing paths.
pub open spec fn handled(existing: Set<Seq<char>>, title: Seq<char>) -> bool {
    existing.contains(completed_path(title)) || existing.contains(marker_path(title))
}

/// Once the download of a title exists, the title is handled, whatever else
/// exists: within one run no title is fetched a second time.
pub proof fn lemma_downloaded_title_is_handled(existing: Set<Seq<char>>, title: Seq<char>)
    ensures
        handled(existing.insert(completed_path(title)), title),
{
}

/// The path of the finished download of a title. The title is used as it is.
pub fn completed_path_of(title: &str) -> (path: String)
    ensures
        path@ == completed_path(title@),
{
    let mut path = String::from_str("downloads/");
    path.append(title);
    path.append(".torrent");
    path
}

/// The path of the marker of a title. The title is used as it is.
pub fn marker_path_of(title: &str) -> (path: String)
    ensures
        path@ == marker_path(title@),
{
    let mut path = String::from_str("downloads/");
    path.append(title);
    path.append(".torrent.added");
    path
}

/// The record of what has been downloaded: the artifact paths that are known to exist.
pub struct Ledger {
    paths: Vec<String>,
}

impl View for Ledger {
    type V = Set<Seq<char>>;

    closed spec fn view(&self) -> Set<Seq<char>> {
        self.paths.deep_view().to_set()
    }
}

impl Ledger {
    /// A ledger in which no path exists.
    pub fn new() -> (ledger: Ledger)
        ensures
            ledger@ == Set::<Seq<char>>::empty(),
    {
        let ledger = Ledger { paths: Vec::new() };
        ledger
    }

    /// Notes that `path` exists.
    pub fn record(&mut self, path: String)
        ensures
            final(self)@ == old(self)@.insert(path@),
    {
        let ghost before = self.paths.deep_view();
        self.paths.push(path);
        proof {
            assert(self.paths.deep_view() =~= before.push(path@));
            before.lemma_push_to_set_commute(path@);
        }
    }

    /// Tells whether `path` is known to exist.
    pub fn knows(&self, path: &String) -> (found: bool)
        ensures
            found == self@.contains(path@),
    {
        let ghost known = self.paths.deep_view();
        let mut i: usize = 0;
        while i < self.paths.len()
            invariant
                i <= self.paths.len(),
                known == self.paths.deep_view(),
                forall|k: int| 0 <= k < i ==> known[k] != path@,
            decreases self.paths.len() - i,
        {
            assert(known[i as int] == self.paths@[i as int]@);
            if self.paths[i] == *path {
                return true;
            }
            i += 1;
        }
        false
    }

    /// Tells whether a title needs no download: whether its finished download
    /// or its marker exists.
    pub fn already_downloaded(&self, title: &str) -> (done: bool)
        ensures
            done == handled(self@, title@),
    {
        let completed = completed_path_of(title);
        if self.knows(&completed) {
            return true;
        }
        let marker = marker_path_of(title);
        self.knows(&marker)
    }

    /// Tells whether a target is still to be downloaded.
    pub fn filter_existing(&self, target: &Target) -> (keep: bool)
        ensures
            keep == !handled(self@, target@.title),
    {
        !self.already_downloaded(target.title.as_str())
    }
}

} // verus!
