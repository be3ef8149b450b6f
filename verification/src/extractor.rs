use crate::target::{Target, TargetView};
use crate::validator::{is_valid, valid_title, BannedWords};
use soup::{NodeExt, QueryBuilderExt, Soup};
use vstd::prelude::*;

verus! {

/// What the extraction reads of one link element: its `title` and `href`
/// attributes, each absent or present.
#[derive(Debug, PartialEq, Eq)]
pub struct Anchor {
    pub title: Option<String>,
    pub href: Option<String>,
}

/// The mathematical value of an [`Anchor`].
pub ghost struct AnchorView {
    pub title: Option<Seq<char>>,
    pub href: Option<Seq<char>>,
}

impl View for Anchor {
    type V = AnchorView;

    open spec fn view(&self) -> AnchorView {
        AnchorView {
            title: match self.title {
                Some(text) => Some(text@),
                None => None,
            },
            href: match self.href {
                Some(text) => Some(text@),
                None => None,
            },
        }
    }
}

impl DeepView for Anchor {
    type V = AnchorView;

    open spec fn deep_view(&self) -> AnchorView {
        self@
    }
}

/// The elements named `outer` of the parsed document `html`, in document
/// order, and for each of them the elements named `inner` at or below it, in
/// document order, each given by the values of its attributes `title_attr` and
/// `href_attr`. An element below two nested `outer` elements is listed under
/// both.
pub uninterp spec fn html_nested(
    html: Seq<char>,
    outer: Seq<char>,
    inner: Seq<char>,
    title_attr: Seq<char>,
    href_attr: Seq<char>,
) -> Seq<Seq<AnchorView>>;

/// Parses `html` with `soup::Soup::new`, walks the elements named `outer` and
/// under each those named `inner` with `QueryBuilder::find_all`, and reads the
/// two attributes of each with `NodeExt::get`. The parser takes any text
/// without an error, and what is found depends on the five strings alone. The
/// walk recurses along the document tree, so a document needs stack space in
/// proportion to its size; nothing is claimed of one that exhausts it.
#[verifier::external_body]
fn read_nested(html: &str, outer: &str, inner: &str, title_attr: &str, href_attr: &str) -> (cells:
    Vec<Vec<Anchor>>)
    ensures
        cells.deep_view() == html_nested(html@, outer@, inner@, title_attr@, href_attr@),
{
    let document = Soup::new(html);
    let mut cells: Vec<Vec<Anchor>> = Vec::new();
    for cell in document.tag(outer).find_all() {
        let mut anchors: Vec<Anchor> = Vec::new();
        for node in cell.tag(inner).find_all() {
            anchors.push(Anchor { title: node.get(title_attr), href: node.get(href_attr) });
        }
        cells.push(anchors);
    }
    cells
}

/// The anchors found in the table cells of a document, cell after cell.
pub open spec fn cell_anchors(html: Seq<char>) -> Seq<AnchorView> {
    html_nested(html, "td"@, "a"@, "title"@, "href"@).flatten()
}

/// The target that an anchor stands for: one with both attributes gives a
/// target, any other gives none.
pub open spec fn candidate(anchor: AnchorView) -> Option<TargetView> {
    match (anchor.title, anchor.href) {
        (Some(title), Some(href)) => Some(TargetView { href, title }),
        _ => None,
    }
}

/// The targets of a sequence of anchors: those of the anchors that have both
/// attributes, in the order of the anchors, equal ones kept.
pub open spec fn candidates(anchors: Seq<AnchorView>) -> Seq<TargetView> {
    anchors.filter_map(|anchor: AnchorView| candidate(anchor))
}

/// What one anchor adds to the targets: itself as a target, or nothing.
pub open spec fn contribution(anchor: AnchorView) -> Seq<TargetView> {
    match candidate(anchor) {
        Some(target) => seq![target],
        None => Seq::empty(),
    }
}

/// The targets whose title is valid, in their order.
pub open spec fn valid_targets(banned: Seq<Seq<char>>, targets: Seq<TargetView>) -> Seq<
    TargetView,
> {
    targets.filter(|target: TargetView| valid_title(banned, target.title))
}

/// An anchor appended to a sequence adds its contribution at the end.
pub proof fn lemma_candidates_push(anchors: Seq<AnchorView>, anchor: AnchorView)
    ensures
        candidates(anchors.push(anchor)) == candidates(anchors) + contribution(anchor),
{
    assert(anchors.push(anchor).drop_last() =~= anchors);
}

/// Extraction keeps the order of the document and merges nothing: the targets
/// of two runs of anchors, one after the other, are the targets of the first
/// followed by the targets of the second.
pub proof fn lemma_candidates_concat(front: Seq<AnchorView>, back: Seq<AnchorView>)
    ensures
        candidates(front + back) == candidates(front) + candidates(back),
    decreases back.len(),
{
    if back.len() > 0 {
        let rest = back.drop_last();
        let last = back.last();
        assert(back =~= rest.push(last));
        lemma_candidates_push(front + rest, last);
        lemma_candidates_push(rest, last);
        lemma_candidates_concat(front, rest);
        assert(candidates(front) + candidates(rest) + contribution(last) =~= candidates(front) + (
        candidates(rest) + contribution(last)));
    }
}

/// The anchor at position `at` has both attributes and stands for `target`.
pub open spec fn comes_from(anchors: Seq<AnchorView>, at: int, target: TargetView) -> bool {
    0 <= at < anchors.len() && candidate(anchors[at]) == Some(target)
}

/// Every extracted target is the target of one of the anchors.
pub proof fn lemma_candidate_has_origin(anchors: Seq<AnchorView>, k: int)
    requires
        0 <= k < candidates(anchors).len(),
    ensures
        exists|at: int| #[trigger] comes_from(anchors, at, candidates(anchors)[k]),
    decreases anchors.len(),
{
    if anchors.len() > 0 {
        let rest = anchors.drop_last();
        let last = anchors.last();
        lemma_candidates_push(rest, last);
        if k < candidates(rest).len() {
            lemma_candidate_has_origin(rest, k);
            let at = choose|at: int| #[trigger] comes_from(rest, at, candidates(rest)[k]);
            assert(comes_from(anchors, at, candidates(anchors)[k]));
        } else {
            assert(comes_from(anchors, anchors.len() - 1, candidates(anchors)[k]));
        }
    }
}

/// Extracted targets stand in the order of their anchors: of two targets, the
/// earlier one comes from an anchor that stands before an anchor of the later one.
pub proof fn lemma_candidates_keep_order(anchors: Seq<AnchorView>, k: int, l: int)
    requires
        0 <= k < l < candidates(anchors).len(),
    ensures
        exists|i: int, j: int|
            i < j && #[trigger] comes_from(anchors, i, candidates(anchors)[k])
                && #[trigger] comes_from(anchors, j, candidates(anchors)[l]),
    decreases anchors.len(),
{
    if anchors.len() > 0 {
        let rest = anchors.drop_last();
        let last = anchors.last();
        lemma_candidates_push(rest, last);
        if l < candidates(rest).len() {
            lemma_candidates_keep_order(rest, k, l);
            let (i, j) = choose|i: int, j: int|
                i < j && #[trigger] comes_from(rest, i, candidates(rest)[k])
                    && #[trigger] comes_from(rest, j, candidates(rest)[l]);
            assert(comes_from(anchors, i, candidates(anchors)[k]));
            assert(comes_from(anchors, j, candidates(anchors)[l]));
        } else {
            lemma_candidate_has_origin(rest, k);
            let i = choose|at: int| #[trigger] comes_from(rest, at, candidates(rest)[k]);
            let j = anchors.len() - 1;
            assert(comes_from(anchors, i, candidates(anchors)[k]));
            assert(comes_from(anchors, j, candidates(anchors)[l]));
        }
    }
}

/// An anchor that lacks its title or its link adds nothing, wherever it
/// stands among the others.
pub proof fn lemma_incomplete_anchor_is_skipped(
    front: Seq<AnchorView>,
    anchor: AnchorView,
    back: Seq<AnchorView>,
)
    requires
        anchor.title is None || anchor.href is None,
    ensures
        candidates(front.push(anchor) + back) == candidates(front + back),
{
    lemma_candidates_concat(front.push(anchor), back);
    lemma_candidates_concat(front, back);
    lemma_candidates_push(front, anchor);
}

/// An anchor with both attributes gives exactly one target, with its own link
/// and title, between the targets of the anchors before it and of those after it.
pub proof fn lemma_complete_anchor_is_kept(
    front: Seq<AnchorView>,
    anchor: AnchorView,
    back: Seq<AnchorView>,
)
    requires
        anchor.title is Some,
        anchor.href is Some,
    ensures
        candidates(front.push(anchor) + back) == candidates(front).push(
            TargetView { href: anchor.href->0, title: anchor.title->0 },
        ) + candidates(back),
{
    lemma_candidates_concat(front.push(anchor), back);
    lemma_candidates_push(front, anchor);
    assert(candidates(front) + contribution(anchor) =~= candidates(front).push(
        TargetView { href: anchor.href->0, title: anchor.title->0 },
    ));
}

/// Turns an anchor into a target where it has both a title and a link.
pub fn candidate_of(anchor: &Anchor) -> (found: Option<Target>)
    ensures
        match found {
            Some(target) => candidate(anchor@) == Some(target@),
            None => candidate(anchor@) is None,
        },
{
    match (&anchor.title, &anchor.href) {
        (Some(title), Some(href)) => Some(Target { href: href.clone(), title: title.clone() }),
        _ => None,
    }
}

/// Gathers the targets of the anchors of all cells, cell after cell and
/// anchor after anchor. Anchors without a title or a link are passed over;
/// nothing is reordered or merged.
pub fn collect_candidates(cells: &Vec<Vec<Anchor>>) -> (targets: Vec<Target>)
    ensures
        targets.deep_view() == candidates(cells.deep_view().flatten()),
{
    let mut targets: Vec<Target> = Vec::new();
    let ghost all = cells.deep_view();
    let mut i: usize = 0;
    while i < cells.len()
        invariant
            i <= cells.len(),
            all == cells.deep_view(),
            targets.deep_view() == candidates(all.take(i as int).flatten()),
        decreases cells.len() - i,
    {
        let cell = &cells[i];
        let ghost before = all.take(i as int).flatten();
        let ghost here = cell.deep_view();
        let mut j: usize = 0;
        while j < cell.len()
            invariant
                j <= cell.len(),
                here == cell.deep_view(),
                targets.deep_view() == candidates(before + here.take(j as int)),
            decreases cell.len() - j,
        {
            let found = candidate_of(&cell[j]);
            proof {
                assert((before + here.take(j as int)).push(here[j as int]) =~= before + here.take(
                    j + 1,
                ));
                lemma_candidates_push(before + here.take(j as int), here[j as int]);
            }
            if let Some(target) = found {
                targets.push(target);
            }
            j += 1;
        }
        proof {
            assert(here.take(cell.len() as int) =~= here);
            assert(all.take(i + 1) =~= all.take(i as int).push(here));
            all.take(i as int).lemma_flatten_push(here);
        }
        i += 1;
    }
    assert(all.take(cells.len() as int) =~= all);
    targets
}

/// Reads the candidate targets of an HTML document: one for each anchor at or
/// below a table cell that has both a `title` and an `href` attribute, in
/// document order. Titles are not judged here.
pub fn extract(html: &str) -> (targets: Vec<Target>)
    ensures
        targets.deep_view() == candidates(cell_anchors(html@)),
{
    let cells = read_nested(html, "td", "a", "title", "href");
    collect_candidates(&cells)
}

/// Keeps the targets whose title is valid, in their order.
pub fn retain_valid(banned_words: &BannedWords, targets: &Vec<Target>) -> (kept: Vec<Target>)
    ensures
        kept.deep_view() == valid_targets(banned_words.deep_view(), targets.deep_view()),
{
    let mut kept: Vec<Target> = Vec::new();
    let ghost all = targets.deep_view();
    let ghost banned = banned_words.deep_view();
    let ghost keep = |target: TargetView| valid_title(banned, target.title);
    let mut i: usize = 0;
    proof {
        reveal(Seq::filter);
    }
    while i < targets.len()
        invariant
            i <= targets.len(),
            all == targets.deep_view(),
            banned == banned_words.deep_view(),
            keep == |target: TargetView| valid_title(banned, target.title),
            kept.deep_view() == all.take(i as int).filter(keep),
        decreases targets.len() - i,
    {
        let target = &targets[i];
        proof {
            assert(all.take(i + 1) =~= all.take(i as int).push(target@));
            all.take(i as int).lemma_filter_push(target@, keep);
        }
        if is_valid(banned_words, &target.title) {
            kept.push(target.clone());
        }
        i += 1;
    }
    assert(all.take(targets.len() as int) =~= all);
    kept
}

/// Reads the downloadable targets of an HTML document: the anchors at or below
/// table cells that carry both a `title` and an `href` attribute and whose
/// title is valid, in document order.
pub fn get_targets_from_html(banned_words: BannedWords, html: &str) -> (targets: Vec<Target>)
    ensures
        targets.deep_view() == valid_targets(
            banned_words.deep_view(),
            candidates(cell_anchors(html@)),
        ),
{
    let found = extract(html);
    retain_valid(&banned_words, &found)
}

} // verus!
