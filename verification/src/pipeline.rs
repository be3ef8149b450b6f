use crate::extractor::{candidates, cell_anchors, get_targets_from_html, valid_targets, AnchorView};
use crate::ledger::{completed_path, handled, Ledger};
use crate::target::{Target, TargetView};
use crate::validator::{valid_title, BannedWords};
use vstd::prelude::*;
use vstd::string::StringExecFns;

verus! {

/// The targets whose title is not handled yet, in their order.
pub open spec fn pending(targets: Seq<TargetView>, existing: Set<Seq<char>>) -> Seq<TargetView> {
    targets.filter(|target: TargetView| !handled(existing, target.title))
}

/// The download plan for a sequence of anchors: the targets of the anchors
/// with both attributes, of those the ones with a valid title, of those the
/// ones not handled yet.
pub open spec fn plan(
    banned: Seq<Seq<char>>,
    anchors: Seq<AnchorView>,
    existing: Set<Seq<char>>,
) -> Seq<TargetView> {
    pending(valid_targets(banned, candidates(anchors)), existing)
}

/// The existing paths once every target of `downloaded` has been fetched to
/// its path.
pub open spec fn materialized(existing: Set<Seq<char>>, downloaded: Seq<TargetView>) -> Set<
    Seq<char>,
> {
    Set::new(
        |path: Seq<char>|
            existing.contains(path) || exists|k: int|
                0 <= k < downloaded.len() && path == completed_path(#[trigger] downloaded[k].title),
    )
}

/// The address from which a target is fetched.
pub open spec fn download_link(host: Seq<char>, href: Seq<char>) -> Seq<char> {
    host + href + "/torrent"@
}

/// Builds the address from which a target is fetched: the host, the target's
/// link as it was found, and `/torrent`.
pub fn download_link_of(host: &str, target: &Target) -> (link: String)
    ensures
        link@ == download_link(host@, target@.href),
{
    let mut link = String::from_str(host);
    link.append(target.href.as_str());
    link.append("/torrent");
    link
}

/// Keeps the targets that the ledger does not know, in their order.
pub fn retain_pending(targets: &Vec<Target>, ledger: &Ledger) -> (kept: Vec<Target>)
    ensures
        kept.deep_view() == pending(targets.deep_view(), ledger@),
{
    let mut kept: Vec<Target> = Vec::new();
    let ghost all = targets.deep_view();
    let ghost existing = ledger@;
    let ghost keep = |target: TargetView| !handled(existing, target.title);
    let mut i: usize = 0;
    proof {
        reveal(Seq::filter);
    }
    while i < targets.len()
        invariant
            i <= targets.len(),
            all == targets.deep_view(),
            existing == ledger@,
            keep == |target: TargetView| !handled(existing, target.title),
            kept.deep_view() == all.take(i as int).filter(keep),
        decreases targets.len() - i,
    {
        let target = &targets[i];
        proof {
            assert(all.take(i + 1) =~= all.take(i as int).push(target@));
            all.take(i as int).lemma_filter_push(target@, keep);
        }
        if ledger.filter_existing(target) {
            kept.push(target.clone());
        }
        i += 1;
    }
    assert(all.take(targets.len() as int) =~= all);
    kept
}

/// Plans the downloads for a listing page: reads the targets of the
/// document, keeps those with a valid title, and of those the ones that the
/// ledger does not know. The plan is in document order.
pub fn run(banned_words: BannedWords, html: &str, ledger: &Ledger) -> (targets: Vec<Target>)
    ensures
        targets.deep_view() == plan(banned_words.deep_view(), cell_anchors(html@), ledger@),
{
    let valid = get_targets_from_html(banned_words, html);
    retain_pending(&valid, ledger)
}

/// Every target of a plan has a valid title, so one that follows the grammar
/// and holds no banned word, and is not handled yet.
pub proof fn lemma_plan_is_sound(
    banned: Seq<Seq<char>>,
    anchors: Seq<AnchorView>,
    existing: Set<Seq<char>>,
    k: int,
)
    requires
        0 <= k < plan(banned, anchors, existing).len(),
    ensures
        valid_title(banned, plan(banned, anchors, existing)[k].title),
        !handled(existing, plan(banned, anchors, existing)[k].title),
        candidates(anchors).contains(plan(banned, anchors, existing)[k]),
{
    let found = candidates(anchors);
    let valid = valid_targets(banned, found);
    let is_valid = |target: TargetView| valid_title(banned, target.title);
    let is_pending = |target: TargetView| !handled(existing, target.title);
    let target = plan(banned, anchors, existing)[k];
    valid.lemma_filter_pred(is_pending, k);
    valid.lemma_filter_contains_rev(is_pending, target);
    let at = choose|at: int| 0 <= at < valid.len() && valid[at] == target;
    found.lemma_filter_pred(is_valid, at);
    found.lemma_filter_contains_rev(is_valid, target);
}

/// A title whose download or whose marker exists is in no plan, valid or not.
pub proof fn lemma_handled_title_is_excluded(
    banned: Seq<Seq<char>>,
    anchors: Seq<AnchorView>,
    existing: Set<Seq<char>>,
    title: Seq<char>,
    k: int,
)
    requires
        existing.contains(completed_path(title)) || existing.contains(
            crate::ledger::marker_path(title),
        ),
        0 <= k < plan(banned, anchors, existing).len(),
    ensures
        plan(banned, anchors, existing)[k].title != title,
{
    lemma_plan_is_sound(banned, anchors, existing, k);
}

/// Planning is idempotent: once the downloads of a plan exist, the plan for
/// the same page and the same banned words is empty.
pub proof fn lemma_second_run_is_empty(
    banned: Seq<Seq<char>>,
    anchors: Seq<AnchorView>,
    existing: Set<Seq<char>>,
)
    ensures
        plan(banned, anchors, materialized(existing, plan(banned, anchors, existing)))
            == Seq::<TargetView>::empty(),
{
    let valid = valid_targets(banned, candidates(anchors));
    let first = pending(valid, existing);
    let after = materialized(existing, first);
    let was_pending = |target: TargetView| !handled(existing, target.title);
    let is_pending = |target: TargetView| !handled(after, target.title);
    assert forall|i: int| 0 <= i < valid.len() implies !is_pending(#[trigger] valid[i]) by {
        if was_pending(valid[i]) {
            valid.lemma_filter_contains(was_pending, i);
        }
    }
    valid.lemma_all_neg_filter_empty(is_pending);
}

} // verus!
