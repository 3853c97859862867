//! The decision core of the crawler and of the deletion pass: task
//! planning for listing and download work, the observed-path set with its
//! claim latch, the worker-pool counter discipline, the deletion plan under
//! bounded damage, and the exit code table.  The caller owns the threads,
//! the queues and every byte of I/O; it feeds observations in and carries
//! the returned plans out.

use vstd::prelude::*;

use crate::bytes::{bytes_to_string, eq_bytes, is_prefix, lemma_text_bytes_len, spec_split,
    split_byte, str_to_bytes, string_to_bytes, text_bytes, texts_of};
use crate::compare::{spec_should_download_by_list, LocalMetadata};
use crate::listing::{FileType, ListItem, NaiveDateTime};
use crate::parser::{item_view, SpecItem};
use crate::regex_process::{spec_match_str, ExclusionManager};
use crate::rematch::regex_matches;

verus! {

/// One unit of work: list a directory, or download one listed entry.
#[derive(Debug)]
pub enum TaskType {
    Listing,
    Download(ListItem),
}

/// A task in the queue: its kind, the path segments from the mirror root to
/// the containing directory, and the URL to act on.
#[derive(Debug)]
pub struct Task {
    pub task: TaskType,
    pub relative: Vec<String>,
    pub url: String,
}

/// The ghost image of one task.
pub ghost struct SpecTask {
    pub listing: bool,
    pub item: Option<SpecItem>,
    pub relative: Seq<Seq<u8>>,
    pub url: Seq<u8>,
}

/// The ghost image of one executable task.
pub open spec fn task_view(t: Task) -> SpecTask {
    SpecTask {
        listing: t.task is Listing,
        item: match t.task {
            TaskType::Listing => None,
            TaskType::Download(it) => Some(item_view(it)),
        },
        relative: texts_of(t.relative@),
        url: text_bytes(t.url@),
    }
}

/// The ghost images of a sequence of tasks.
pub open spec fn tasks_view(ts: Seq<Task>) -> Seq<SpecTask> {
    Seq::new(ts.len(), |i: int| task_view(ts[i]))
}

/// The relative segments joined with slashes: the path of a directory under
/// the mirror root.
pub open spec fn spec_join_relative(parts: Seq<Seq<u8>>) -> Seq<u8>
    decreases parts.len(),
{
    if parts.len() == 0 {
        Seq::empty()
    } else if parts.len() == 1 {
        parts[0]
    } else {
        spec_join_relative(parts.drop_last()) + seq![47u8] + parts.last()
    }
}

/// Join relative segments with slashes; `None` when the joined bytes are
/// not a whole string (never for real segments).
pub fn join_relative(parts: &Vec<String>) -> (r: Option<String>)
    ensures
        match r {
            Some(s) => spec_join_relative(texts_of(parts@)) == text_bytes(s@),
            None => !vstd::utf8::valid_utf8(spec_join_relative(texts_of(parts@))),
        },
{
    let ghost pv = texts_of(parts@);
    let n = parts.len();
    let mut acc: Vec<u8> = Vec::new();
    let mut i: usize = 0;
    proof {
        assert(pv.take(0) =~= Seq::<Seq<u8>>::empty());
        assert(acc@ =~= spec_join_relative(pv.take(0)));
    }
    while i < n
        invariant
            0 <= i <= n,
            n == parts@.len(),
            pv == texts_of(parts@),
            acc@ == spec_join_relative(pv.take(i as int)),
        decreases n - i,
    {
        proof {
            assert(pv.take(i + 1).drop_last() =~= pv.take(i as int));
            assert(pv.take(i + 1).last() == pv[i as int]);
        }
        if i > 0 {
            acc.push(47);
        }
        let sb = string_to_bytes(&parts[i]);
        acc.extend_from_slice(sb.as_slice());
        proof {
            if i == 0 {
                assert(pv.take(1).len() == 1);
                assert(acc@ =~= pv[0]);
            } else {
                assert(acc@ =~= spec_join_relative(pv.take(i as int)) + seq![47u8] + pv[i as int]);
            }
        }
        i += 1;
    }
    proof {
        assert(pv.take(n as int) =~= pv);
    }
    let ghost av = acc@;
    match bytes_to_string(acc) {
        Some(s) => {
            proof {
                vstd::utf8::encode_utf8_valid_utf8(s@);
            }
            Some(s)
        },
        None => {
            proof {
                assert(!vstd::utf8::valid_utf8(av));
            }
            None
        },
    }
}

/// The set of local absolute paths the crawl has touched.  Inserting is
/// also the claim latch: the first inserter of a path is told so, and does
/// the work.
#[derive(Debug)]
pub struct RemoteObservedSet {
    items: Vec<String>,
}

impl RemoteObservedSet {
    /// The observed paths, as byte strings.
    pub closed spec fn view(&self) -> Set<Seq<u8>> {
        Set::new(|b: Seq<u8>| texts_of(self.items@).contains(b))
    }

    pub fn new() -> (r: RemoteObservedSet)
        ensures
            r@ == Set::<Seq<u8>>::empty(),
    {
        let r = RemoteObservedSet { items: Vec::new() };
        proof {
            assert(r@ =~= Set::<Seq<u8>>::empty());
        }
        r
    }

    /// Whether a path has been observed.
    pub fn contains(&self, path: &str) -> (r: bool)
        ensures
            r == self@.contains(text_bytes(path@)),
    {
        let pb = str_to_bytes(path);
        let n = self.items.len();
        let mut i: usize = 0;
        while i < n
            invariant
                0 <= i <= n,
                n == self.items@.len(),
                pb@ == text_bytes(path@),
                forall|k: int| 0 <= k < i ==> texts_of(self.items@)[k] != pb@,
            decreases n - i,
        {
            let ib = string_to_bytes(&self.items[i]);
            if eq_bytes(ib.as_slice(), pb.as_slice()) {
                proof {
                    assert(texts_of(self.items@)[i as int] == pb@);
                    assert(texts_of(self.items@).contains(pb@));
                }
                return true;
            }
            i += 1;
        }
        proof {
            assert(!texts_of(self.items@).contains(pb@)) by {
                if texts_of(self.items@).contains(pb@) {
                    let k = choose|k: int|
                        0 <= k < texts_of(self.items@).len() && texts_of(self.items@)[k] == pb@;
                }
            }
        }
        false
    }

    /// Observe a path, and learn whether this call was the first to do so.
    /// The set only ever grows.
    pub fn insert(&mut self, path: String) -> (was_new: bool)
        ensures
            final(self)@ == old(self)@.insert(text_bytes(path@)),
            was_new == !old(self)@.contains(text_bytes(path@)),
            old(self)@.subset_of(final(self)@),
    {
        let ghost pb = text_bytes(path@);
        if self.contains(path.as_str()) {
            proof {
                assert(self@ =~= old(self)@.insert(pb));
            }
            return false;
        }
        let ghost items_pre = self.items@;
        self.items.push(path);
        proof {
            assert(forall|k: int|
                0 <= k < items_pre.len() ==> texts_of(self.items@)[k] == #[trigger] texts_of(
                    items_pre,
                )[k]);
            assert(texts_of(self.items@)[items_pre.len() as int] == pb);
            assert(self@ =~= old(self)@.insert(pb)) by {
                assert(forall|b: Seq<u8>|
                    texts_of(self.items@).contains(b) <==> (texts_of(items_pre).contains(b) || b
                        == pb)) by {
                    assert(forall|b: Seq<u8>|
                        #[trigger] texts_of(items_pre).contains(b) ==> texts_of(
                            self.items@,
                        ).contains(b)) by {
                        assert forall|b: Seq<u8>|
                            #[trigger] texts_of(items_pre).contains(b) implies texts_of(
                            self.items@,
                        ).contains(b) by {
                            let k = choose|k: int|
                                0 <= k < texts_of(items_pre).len() && texts_of(items_pre)[k] == b;
                            assert(texts_of(self.items@)[k] == b);
                        }
                    }
                    assert forall|b: Seq<u8>|
                        #[trigger] texts_of(self.items@).contains(b) implies (texts_of(
                        items_pre,
                    ).contains(b) || b == pb) by {
                        let k = choose|k: int|
                            0 <= k < texts_of(self.items@).len() && texts_of(self.items@)[k] == b;
                        if k < items_pre.len() {
                            assert(texts_of(items_pre)[k] == b);
                        }
                    }
                }
            }
        }
        true
    }
}

/// At-most-once download, over any interleaving: `sets` is the history of
/// the observed set, one entry per claim taken under the lock, and the set
/// only ever grows.  When the claim at step `i` succeeded (the path was new
/// there and entered the set), every later step holds the path, so each of
/// the other claimants of the same path is told it is already handled:
/// exactly one claimant does the work.
pub proof fn lemma_single_claimant(sets: Seq<Set<Seq<u8>>>, p: Seq<u8>, i: int, j: int)
    requires
        forall|k: int| 0 <= k < sets.len() - 1 ==> #[trigger] sets[k].subset_of(sets[k + 1]),
        0 <= i < j < sets.len(),
        sets[i].insert(p).subset_of(sets[i + 1]),
    ensures
        sets[j].contains(p),
    decreases j - i,
{
    if j == i + 1 {
        assert(sets[i].insert(p).contains(p));
    } else {
        lemma_single_claimant(sets, p, i, j - 1);
        assert(sets[j - 1].subset_of(sets[(j - 1) + 1]));
        assert(sets[j - 1].contains(p));
    }
}

/// A crawl's observations, folded into the set: every path handed to the
/// latch, in order.
pub open spec fn spec_observe_all(s: Set<Seq<u8>>, paths: Seq<Seq<u8>>) -> Set<Seq<u8>>
    decreases paths.len(),
{
    if paths.len() == 0 {
        s
    } else {
        spec_observe_all(s.insert(paths[0]), paths.drop_first())
    }
}

/// Observed-set completeness: after any run of observations, the set holds
/// every path that was handed in.  Every directory a listing task entered,
/// and every file not stopped by the exclusion engine, is therefore
/// observed when the deletion pass reads the set.
pub proof fn lemma_observed_complete(s: Set<Seq<u8>>, paths: Seq<Seq<u8>>)
    ensures
        forall|i: int|
            0 <= i < paths.len() ==> spec_observe_all(s, paths).contains(#[trigger] paths[i]),
        s.subset_of(spec_observe_all(s, paths)),
    decreases paths.len(),
{
    if paths.len() > 0 {
        let s1 = s.insert(paths[0]);
        lemma_observed_complete(s1, paths.drop_first());
        assert(forall|i: int|
            1 <= i < paths.len() ==> paths.drop_first()[i - 1] == #[trigger] paths[i]);
        assert(spec_observe_all(s, paths).contains(paths[0])) by {
            assert(s1.contains(paths[0]));
        }
    }
}

/// Addition that sticks at the largest `u64`, for the size statistic.
pub open spec fn spec_sat_add(a: int, b: int) -> int {
    if a + b > u64::MAX {
        u64::MAX as int
    } else {
        a + b
    }
}

/// The tasks pushed for the children of one listed directory, with the
/// object count and the estimated size they add: every subdirectory
/// becomes a listing task under the extended relative path; every file
/// becomes a download task unless the directory's verdict was list-only.
pub open spec fn spec_plan_children(
    items: Seq<SpecItem>,
    relv: Seq<Seq<u8>>,
    verdict: crate::regex::Comparison,
) -> (Seq<SpecTask>, int, int)
    decreases items.len(),
{
    if items.len() == 0 {
        (Seq::empty(), 0, 0)
    } else {
        let it = items[0];
        let (rest_tasks, rest_obj, rest_size) = spec_plan_children(
            items.drop_first(),
            relv,
            verdict,
        );
        if it.type_ is Directory {
            (
                seq![
                    SpecTask {
                        listing: true,
                        item: None,
                        relative: relv.push(it.name),
                        url: it.url,
                    },
                ] + rest_tasks,
                rest_obj + 1,
                rest_size,
            )
        } else if verdict is ListOnly {
            (rest_tasks, rest_obj, rest_size)
        } else {
            let est = match it.size {
                Some(s) => s.spec_estimated(),
                None => 0,
            };
            (
                seq![
                    SpecTask { listing: false, item: Some(it), relative: relv, url: it.url },
                ] + rest_tasks,
                rest_obj + 1,
                spec_sat_add(est, rest_size),
            )
        }
    }
}

/// The plan's counters are well-bounded: never negative, and at most one
/// object per listed entry, the size stuck below the largest `u64`.
pub proof fn lemma_plan_children_bounds(
    items: Seq<SpecItem>,
    relv: Seq<Seq<u8>>,
    verdict: crate::regex::Comparison,
)
    ensures
        0 <= spec_plan_children(items, relv, verdict).1 <= items.len(),
        0 <= spec_plan_children(items, relv, verdict).2 <= u64::MAX,
    decreases items.len(),
{
    if items.len() > 0 {
        lemma_plan_children_bounds(items.drop_first(), relv, verdict);
    }
}

/// Plan the children of one listed directory.  Consumes the listing and
/// returns the tasks to push, the object count and the estimated size to
/// add to the statistics.
pub fn plan_list_children(
    items: Vec<ListItem>,
    relative: &Vec<String>,
    exclusion_result: crate::regex::Comparison,
) -> (r: (Vec<Task>, u64, u64))
    ensures
        ({
            let plan = spec_plan_children(
                crate::parser::items_view(items@),
                texts_of(relative@),
                exclusion_result,
            );
            tasks_view(r.0@) == plan.0 && r.1 == plan.1 && r.2 == plan.2
        }),
{
    let ghost items0 = items@;
    let ghost iv = crate::parser::items_view(items@);
    let ghost relv = texts_of(relative@);
    let ghost plan = spec_plan_children(iv, relv, exclusion_result);
    let mut items = items;
    let mut tasks: Vec<Task> = Vec::new();
    let mut objects: u64 = 0;
    let mut size_est: u64 = 0;
    let mut i: usize = 0;
    let n0 = items.len();
    proof {
        assert(items0.len() == n0 as int);
        assert(items@ =~= items0.skip(0));
        assert(tasks_view(tasks@) =~= Seq::<SpecTask>::empty());
        assert(iv.skip(0) =~= iv);
        lemma_plan_children_bounds(iv, relv, exclusion_result);
    }
    while items.len() > 0
        invariant
            0 <= i <= items0.len() <= usize::MAX,
            items@ == items0.skip(i as int),
            iv == crate::parser::items_view(items0),
            relv == texts_of(relative@),
            plan == spec_plan_children(iv, relv, exclusion_result),
            objects <= i,
            plan.0 == tasks_view(tasks@) + spec_plan_children(
                iv.skip(i as int),
                relv,
                exclusion_result,
            ).0,
            plan.1 == objects + spec_plan_children(iv.skip(i as int), relv, exclusion_result).1,
            plan.2 == spec_sat_add(
                size_est as int,
                spec_plan_children(iv.skip(i as int), relv, exclusion_result).2,
            ),
        decreases items@.len(),
    {
        let ghost it = iv[i as int];
        proof {
            assert(iv.skip(i as int)[0] == it);
            assert(iv.skip(i as int).drop_first() =~= iv.skip(i + 1));
            lemma_plan_children_bounds(iv.skip(i + 1), relv, exclusion_result);
        }
        let item = items.remove(0);
        proof {
            assert(item == items0[i as int]);
            assert(items@ =~= items0.skip(i + 1));
            assert(item_view(item) == it);
        }
        let is_dir = matches!(item.type_, FileType::Directory);
        if is_dir {
            let ListItem { url, name, type_: _, size: _, mtime: _, skip_check: _ } = item;
            let mut rel2 = crate::extensions::apt::clone_string_vec(relative);
            let ghost rel2_pre = rel2@;
            rel2.push(name);
            proof {
                assert(texts_of(rel2@) =~~= relv.push(it.name));
            }
            let task = Task { task: TaskType::Listing, relative: rel2, url };
            let ghost tasks_pre = tasks@;
            let ghost tv = task_view(task);
            tasks.push(task);
            objects = objects + 1;
            proof {
                assert(tv == SpecTask {
                    listing: true,
                    item: None,
                    relative: relv.push(it.name),
                    url: it.url,
                });
                assert(tasks_view(tasks@) =~~= tasks_view(tasks_pre).push(tv));
                assert(forall|rest: Seq<SpecTask>|
                    (tasks_view(tasks_pre).push(tv) + rest) =~= tasks_view(tasks_pre) + (seq![tv]
                        + rest));
            }
        } else if matches!(exclusion_result, crate::regex::Comparison::ListOnly) {
            proof {
                assert(spec_plan_children(iv.skip(i as int), relv, exclusion_result)
                    == spec_plan_children(iv.skip(i + 1), relv, exclusion_result));
            }
        } else {
            let est: u64 = match &item.size {
                Some(s) => s.get_estimated(),
                None => 0,
            };
            let url2 = item.url.clone();
            let rel2 = crate::extensions::apt::clone_string_vec(relative);
            let task = Task { task: TaskType::Download(item), relative: rel2, url: url2 };
            let ghost tasks_pre = tasks@;
            let ghost tv = task_view(task);
            tasks.push(task);
            objects = objects + 1;
            let ghost size_pre = size_est;
            if est > u64::MAX - size_est {
                size_est = u64::MAX;
            } else {
                size_est = size_est + est;
            }
            proof {
                assert(tv == SpecTask { listing: false, item: Some(it), relative: relv, url: it.url });
                assert(tasks_view(tasks@) =~~= tasks_view(tasks_pre).push(tv));
                assert(forall|rest: Seq<SpecTask>|
                    (tasks_view(tasks_pre).push(tv) + rest) =~= tasks_view(tasks_pre) + (seq![tv]
                        + rest));
                let rest2 = spec_plan_children(iv.skip(i + 1), relv, exclusion_result).2;
                assert(spec_sat_add(size_pre as int, spec_sat_add(est as int, rest2))
                    == spec_sat_add(size_est as int, rest2));
            }
        }
        i += 1;
    }
    proof {
        assert(iv.skip(items0.len() as int) =~= Seq::<SpecItem>::empty());
        assert(tasks_view(tasks@) + Seq::<SpecTask>::empty() =~= tasks_view(tasks@));
    }
    (tasks, objects, size_est)
}

/// What the download handler decided for one listed file.
#[derive(Debug, PartialEq, Eq, Structural, Clone, Copy)]
pub struct DownloadPlan {
    /// Whether the listing-based comparison asks for a fetch.
    pub should_download: bool,
    /// The per-path skip-if-exists bit that was applied.
    pub skip_if_exists: bool,
    /// The per-path size-only bit for a later HEAD refinement.
    pub compare_size_only: bool,
}

/// Decide one download task up to its first I/O: consult the exclusion
/// engine on the file's relative path, claim the expected path in the
/// observed set, and judge freshness from the listing.  `None` means the
/// task stops here (excluded, or already claimed by another task); the
/// observed set gains the path in every other case, so every file not
/// stopped by the engine is observed.
pub fn plan_download(
    exclusion: &ExclusionManager,
    observed: &mut RemoteObservedSet,
    relative_filepath: &str,
    expected_path: &str,
    skip_if_exists_regexes: &Vec<crate::regex_process::ExpandedRegex>,
    compare_size_only_regexes: &Vec<crate::regex_process::ExpandedRegex>,
    local: Option<&LocalMetadata>,
    item: &ListItem,
    timezone: Option<i64>,
) -> (r: Option<DownloadPlan>)
    ensures
        ({
            let verdict = spec_match_str(
                exclusion.include_pats(),
                exclusion.stop_pats(),
                exclusion.list_only_pats(),
                text_bytes(relative_filepath@),
            );
            let pathb = text_bytes(expected_path@);
            &&& verdict is Stop ==> r is None && final(observed)@ == old(observed)@
            &&& !(verdict is Stop) && old(observed)@.contains(pathb) ==> r is None && final(
                observed)@ == old(observed)@.insert(pathb)
            &&& !(verdict is Stop) && !old(observed)@.contains(pathb) ==> final(observed)@ == old(
                observed)@.insert(pathb) && r == Some(
                (DownloadPlan {
                    should_download: spec_should_download_by_list(
                        match local {
                            Some(m) => Some(*m),
                            None => None,
                        },
                        *item,
                        timezone,
                        spec_any_pair_match(
                            crate::regex_process::pats_of(skip_if_exists_regexes@),
                            text_bytes(relative_filepath@),
                        ),
                        false,
                    ),
                    skip_if_exists: spec_any_pair_match(
                        crate::regex_process::pats_of(skip_if_exists_regexes@),
                        text_bytes(relative_filepath@),
                    ),
                    compare_size_only: spec_any_pair_match(
                        crate::regex_process::pats_of(compare_size_only_regexes@),
                        text_bytes(expected_path@),
                    ),
                }),
            )
            &&& !(verdict is Stop) ==> final(observed)@.contains(pathb)
        }),
{
    let verdict = exclusion.match_str(relative_filepath);
    if matches!(verdict, crate::regex::Comparison::Stop) {
        return None;
    }
    let was_new = observed.insert(expected_path.to_owned());
    if !was_new {
        return None;
    }
    let skip_if_exists = any_pair_match(skip_if_exists_regexes, relative_filepath);
    let should_download = crate::compare::should_download_by_list(
        local,
        item,
        timezone,
        skip_if_exists,
        false,
    );
    let compare_size_only = any_pair_match(compare_size_only_regexes, expected_path);
    Some(DownloadPlan { should_download, skip_if_exists, compare_size_only })
}

/// Some pattern of the bag matches the text.
pub open spec fn spec_any_pair_match(pats: Seq<(Seq<u8>, Seq<u8>)>, text: Seq<u8>) -> bool {
    crate::regex_process::spec_any_match(pats, text)
}

/// Whether any regex of the list matches the text.
fn any_pair_match(v: &Vec<crate::regex_process::ExpandedRegex>, text: &str) -> (r: bool)
    ensures
        r == spec_any_pair_match(crate::regex_process::pats_of(v@), text_bytes(text@)),
{
    let n = v.len();
    let mut j: usize = 0;
    while j < n
        invariant
            0 <= j <= n,
            n == v@.len(),
            forall|k: int|
                0 <= k < j ==> !regex_matches(
                    crate::regex_process::pats_of(v@)[k].0,
                    text_bytes(text@),
                ),
        decreases n - j,
    {
        if v[j].is_match(text) {
            assert(regex_matches(crate::regex_process::pats_of(v@)[j as int].0, text_bytes(text@)));
            return true;
        }
        j += 1;
    }
    false
}

/// Observe the working directory of a listing task: the cwd enters the
/// observed set before any listing work is done.
pub fn observe_listing(observed: &mut RemoteObservedSet, cwd: &str)
    ensures
        final(observed)@ == old(observed)@.insert(text_bytes(cwd@)),
        final(observed)@.contains(text_bytes(cwd@)),
{
    observed.insert(cwd.to_owned());
}

/// What a redirected listing does to the filesystem.
#[derive(Debug)]
pub enum RedirectAction {
    /// The directory already exists: leave it alone.
    Skip,
    /// Materialise a symlink to the named target.
    Symlink(String),
    /// The relocation target has no usable name.
    Fail,
}

/// The symlink name derived from a relocation target: the second-from-last
/// slash-separated piece of the target URL (the last meaningful segment of
/// a directory reference).
pub open spec fn spec_redirect_symlink(target: Seq<u8>) -> Option<Seq<u8>> {
    let pieces = spec_split(target, 47);
    if pieces.len() >= 2 {
        Some(pieces[pieces.len() - 2])
    } else {
        None
    }
}

/// Decide what a redirected listing does: nothing when the directory
/// already exists; otherwise a symlink to the target's last meaningful
/// segment, or a failure when the target has none (or its bytes are not a
/// whole string, which real targets never are).
pub fn plan_redirect(target_url: &str, cwd_exists: bool) -> (r: RedirectAction)
    ensures
        cwd_exists ==> r is Skip,
        !cwd_exists ==> match r {
            RedirectAction::Skip => false,
            RedirectAction::Symlink(name) => spec_redirect_symlink(text_bytes(target_url@))
                == Some(text_bytes(name@)),
            RedirectAction::Fail => match spec_redirect_symlink(text_bytes(target_url@)) {
                None => true,
                Some(nb) => !vstd::utf8::valid_utf8(nb),
            },
        },
{
    if cwd_exists {
        return RedirectAction::Skip;
    }
    let tb = str_to_bytes(target_url);
    let pieces = split_byte(tb.as_slice(), 47);
    let n = pieces.len();
    if n < 2 {
        return RedirectAction::Fail;
    }
    proof {
        assert(crate::bytes::views_of(pieces@)[n - 2] == spec_redirect_symlink(
            text_bytes(target_url@),
        )->Some_0);
    }
    let name_b = crate::bytes::to_vec(pieces[n - 2].as_slice());
    let ghost nv = name_b@;
    match bytes_to_string(name_b) {
        Some(name) => RedirectAction::Symlink(name),
        None => {
            proof {
                assert(!vstd::utf8::valid_utf8(nv));
            }
            RedirectAction::Fail
        },
    }
}

/// The temporary sibling a download streams into: `.tmp.` before the file
/// name, in the same directory; `None` only for a name whose bytes are not
/// a whole string (never in practice).
pub fn tmp_name(name: &str) -> (r: Option<String>)
    ensures
        r matches Some(t) ==> text_bytes(t@) == text_bytes(".tmp."@) + text_bytes(name@),
        r is None ==> !vstd::utf8::valid_utf8(text_bytes(".tmp."@) + text_bytes(name@)),
{
    let mut b = str_to_bytes(".tmp.");
    let nb = str_to_bytes(name);
    let ghost prefix = b@;
    b.extend_from_slice(nb.as_slice());
    proof {
        assert(b@ =~= text_bytes(".tmp."@) + text_bytes(name@));
    }
    bytes_to_string(b)
}

/// The in-flight file is never the final file: the temporary name differs
/// from the plain name, so the final path holds either nothing or the whole
/// renamed file.
pub proof fn lemma_tmp_name_distinct(name: Seq<char>)
    ensures
        text_bytes(".tmp."@) + text_bytes(name) != text_bytes(name),
{
    reveal_strlit(".tmp.");
    lemma_text_bytes_len(".tmp."@);
    lemma_text_bytes_len(name);
    assert((text_bytes(".tmp."@) + text_bytes(name)).len() > text_bytes(name).len());
}

/// The counters of the quiescence protocol: `active` working workers and
/// unconsumed `wake` tokens.
#[derive(Debug, PartialEq, Eq, Structural, Clone, Copy)]
pub struct PoolCounters {
    pub active: usize,
    pub wake: usize,
}

impl PoolCounters {
    pub fn new() -> (r: PoolCounters)
        ensures
            r.active == 0 && r.wake == 0,
    {
        PoolCounters { active: 0, wake: 0 }
    }

    /// A worker enters its work loop.
    pub fn worker_enters(&mut self)
        requires
            old(self).active < usize::MAX,
        ensures
            final(self).active == old(self).active + 1,
            final(self).wake == old(self).wake,
    {
        self.active = self.active + 1;
    }

    /// A task is pushed: one wake token is minted.
    pub fn task_pushed(&mut self)
        requires
            old(self).wake < usize::MAX,
        ensures
            final(self).wake == old(self).wake + 1,
            final(self).active == old(self).active,
    {
        self.wake = self.wake + 1;
    }

    /// A worker found every queue empty and leaves the active count; it
    /// exits the pool exactly when it was the last active worker.
    pub fn worker_drained(&mut self) -> (exit: bool)
        requires
            old(self).active >= 1,
        ensures
            final(self).active == old(self).active - 1,
            final(self).wake == old(self).wake,
            exit == (old(self).active == 1),
            exit ==> final(self).active == 0,
    {
        self.active = self.active - 1;
        self.active == 0
    }

    /// A sleeping worker tries to consume one wake token.
    pub fn try_consume_wake(&mut self) -> (woke: bool)
        ensures
            old(self).wake > 0 ==> woke && final(self).wake == old(self).wake - 1,
            old(self).wake == 0 ==> !woke && final(self).wake == 0,
            final(self).active == old(self).active,
    {
        if self.wake > 0 {
            self.wake = self.wake - 1;
            true
        } else {
            false
        }
    }
}

/// The model of the whole pool: the counters plus the number of tasks
/// queued anywhere (local deques, injector and stealers together).
pub ghost struct SpecPool {
    pub active: int,
    pub wake: int,
    pub queued: int,
}

/// The steps of the pool model.  A task is pushed only by a working
/// worker; a worker leaves the active count only when every queue is
/// empty from its point of view, which in the model is the global count.
pub enum PoolEvent {
    Enter,
    Push,
    PopTask,
    Drain,
    ConsumeWake,
}

/// One step of the pool model; `None` when the step is not enabled.
pub open spec fn spec_pool_step(p: SpecPool, ev: PoolEvent) -> Option<SpecPool> {
    match ev {
        PoolEvent::Enter => Some(SpecPool { active: p.active + 1, ..p }),
        PoolEvent::Push => if p.active >= 1 {
            Some(SpecPool { queued: p.queued + 1, wake: p.wake + 1, ..p })
        } else {
            None
        },
        PoolEvent::PopTask => if p.active >= 1 && p.queued >= 1 {
            Some(SpecPool { queued: p.queued - 1, ..p })
        } else {
            None
        },
        PoolEvent::Drain => if p.active >= 1 && p.queued == 0 {
            Some(SpecPool { active: p.active - 1, ..p })
        } else {
            None
        },
        PoolEvent::ConsumeWake => if p.wake >= 1 {
            Some(SpecPool { wake: p.wake - 1, ..p })
        } else {
            None
        },
    }
}

/// Quiescence: a drain step that leaves no worker active is enabled exactly
/// in a state where the last active worker stands alone and nothing is
/// queued anywhere; so the pool exits if, and only if, every queue is empty
/// when the last worker looks.
pub proof fn lemma_quiescent_exit(p: SpecPool)
    ensures
        (spec_pool_step(p, PoolEvent::Drain) matches Some(q) && q.active == 0) <==> (p.active == 1
            && p.queued == 0),
{
}

/// The outcome of the deletion pass.
#[derive(Debug)]
pub struct DeletionPlan {
    /// The paths to remove, children first, each with whether it is a
    /// directory.
    pub deletions: Vec<(String, bool)>,
    /// The pass stopped because one more removal would pass the bound.
    pub aborted: bool,
}

/// The ghost image of a deletion plan.
pub open spec fn deletions_view(ds: Seq<(String, bool)>) -> Seq<(Seq<u8>, bool)> {
    Seq::new(ds.len(), |i: int| (text_bytes(ds[i].0@), ds[i].1))
}

/// The plan over the walked entries: entries absent from the observed set
/// are removed in walk order, up to `max_delete` of them; one more aborts
/// the pass.  With deletion disabled nothing is planned.
pub open spec fn spec_deletions(
    entries: Seq<(Seq<u8>, bool)>,
    observed: Set<Seq<u8>>,
    no_delete: bool,
    max_delete: int,
    used: int,
) -> (Seq<(Seq<u8>, bool)>, bool)
    decreases entries.len(),
{
    if entries.len() == 0 {
        (Seq::empty(), false)
    } else if observed.contains(entries[0].0) || no_delete {
        spec_deletions(entries.drop_first(), observed, no_delete, max_delete, used)
    } else if used >= max_delete {
        (Seq::empty(), true)
    } else {
        let (rest, aborted) = spec_deletions(
            entries.drop_first(),
            observed,
            no_delete,
            max_delete,
            used + 1,
        );
        (seq![entries[0]] + rest, aborted)
    }
}

/// Plan the deletion pass.  `entries` are the walked paths under the mirror
/// root, children first, each with whether it is a directory; when the
/// crawl saw a listing failure nothing is deleted.
pub fn plan_deletions(
    entries: Vec<(String, bool)>,
    observed: &RemoteObservedSet,
    failure_listing: bool,
    no_delete: bool,
    max_delete: usize,
) -> (r: DeletionPlan)
    ensures
        failure_listing ==> r.deletions@.len() == 0 && !r.aborted,
        !failure_listing ==> (deletions_view(r.deletions@), r.aborted) == spec_deletions(
            deletions_view(entries@),
            observed@,
            no_delete,
            max_delete as int,
            0,
        ),
        r.deletions@.len() <= max_delete,
{
    if failure_listing {
        return DeletionPlan { deletions: Vec::new(), aborted: false };
    }
    let ghost entries_v = deletions_view(entries@);
    let ghost obs = observed@;
    let n = entries.len();
    let mut deletions: Vec<(String, bool)> = Vec::new();
    let mut used: usize = 0;
    let mut i: usize = 0;
    proof {
        assert(entries_v.skip(0) =~= entries_v);
        assert(deletions_view(deletions@) =~= Seq::<(Seq<u8>, bool)>::empty());
    }
    while i < n
        invariant
            0 <= i <= n,
            n == entries@.len(),
            entries_v == deletions_view(entries@),
            obs == observed@,
            !failure_listing,
            used == deletions@.len() <= max_delete,
            spec_deletions(entries_v, obs, no_delete, max_delete as int, 0) == {
                let (rest, ab) = spec_deletions(
                    entries_v.skip(i as int),
                    obs,
                    no_delete,
                    max_delete as int,
                    used as int,
                );
                (deletions_view(deletions@) + rest, ab)
            },
        decreases n - i,
    {
        let ghost e = entries_v[i as int];
        proof {
            assert(entries_v.skip(i as int)[0] == e);
            assert(entries_v.skip(i as int).drop_first() =~= entries_v.skip(i + 1));
            assert(text_bytes(entries@[i as int].0@) == e.0);
            assert(entries@[i as int].1 == e.1);
        }
        if observed.contains(entries[i].0.as_str()) || no_delete {
            i += 1;
            continue ;
        }
        if used >= max_delete {
            proof {
                assert(spec_deletions(entries_v.skip(i as int), obs, no_delete, max_delete as int, used as int)
                    == (Seq::<(Seq<u8>, bool)>::empty(), true));
                assert(deletions_view(deletions@) + Seq::<(Seq<u8>, bool)>::empty()
                    =~= deletions_view(deletions@));
            }
            return DeletionPlan { deletions, aborted: true };
        }
        let ghost dels_pre = deletions@;
        deletions.push((entries[i].0.clone(), entries[i].1));
        used += 1;
        proof {
            assert(deletions_view(deletions@) =~~= deletions_view(dels_pre).push(e));
            assert(forall|rest: Seq<(Seq<u8>, bool)>|
                (deletions_view(dels_pre).push(e) + rest) =~= deletions_view(dels_pre) + (seq![e]
                    + rest));
        }
        i += 1;
    }
    proof {
        assert(entries_v.skip(n as int) =~= Seq::<(Seq<u8>, bool)>::empty());
        assert(spec_deletions(entries_v.skip(n as int), obs, no_delete, max_delete as int, used as int)
            == (Seq::<(Seq<u8>, bool)>::empty(), false));
        assert(deletions_view(deletions@) + Seq::<(Seq<u8>, bool)>::empty() =~= deletions_view(
            deletions@,
        ));
    }
    DeletionPlan { deletions, aborted: false }
}

/// Every planned deletion lies under the mirror root, provided the walked
/// entries did: the plan only ever selects from the walked entries.
pub proof fn lemma_deletions_under_root(
    entries: Seq<(Seq<u8>, bool)>,
    observed: Set<Seq<u8>>,
    no_delete: bool,
    max_delete: int,
    used: int,
    root: Seq<u8>,
)
    requires
        forall|i: int| 0 <= i < entries.len() ==> is_prefix(root, #[trigger] entries[i].0),
    ensures
        forall|i: int|
            0 <= i < spec_deletions(entries, observed, no_delete, max_delete, used).0.len()
                ==> is_prefix(
                root,
                #[trigger] spec_deletions(entries, observed, no_delete, max_delete, used).0[i].0,
            ),
    decreases entries.len(),
{
    if entries.len() > 0 {
        let dropped = entries.drop_first();
        assert(forall|i: int| 0 <= i < dropped.len() ==> is_prefix(root, #[trigger] dropped[i].0));
        lemma_deletions_under_root(dropped, observed, no_delete, max_delete, used, root);
        lemma_deletions_under_root(dropped, observed, no_delete, max_delete, used + 1, root);
        let res = spec_deletions(entries, observed, no_delete, max_delete, used);
        if observed.contains(entries[0].0) || no_delete {
            assert(res == spec_deletions(dropped, observed, no_delete, max_delete, used));
        } else if used >= max_delete {
            assert(res.0 == Seq::<(Seq<u8>, bool)>::empty());
        }
        if !(observed.contains(entries[0].0) || no_delete) && used < max_delete {
            let sub = spec_deletions(dropped, observed, no_delete, max_delete, used + 1);
            assert forall|i: int| 0 <= i < res.0.len() implies is_prefix(
                root,
                #[trigger] res.0[i].0,
            ) by {
                assert(res.0 == seq![entries[0]] + sub.0);
                if i == 0 {
                    assert(is_prefix(root, entries[0].0));
                } else {
                    assert(res.0[i] == sub.0[i - 1]);
                }
            }
        }
    }
}

/// The exit code of one run, by the table: a failed download ends the run
/// with 2 whatever the deletion pass did; otherwise a listing failure gives
/// 1 and forbids deletion, an aborted pass gives 25, a failed walk 1, a
/// failed removal 4, and a clean run 0.
pub open spec fn spec_exit_code(
    failure_listing: bool,
    failure_downloading: bool,
    aborted: bool,
    walk_failed: bool,
    removal_failed: bool,
) -> int {
    if failure_downloading {
        2
    } else if failure_listing {
        1
    } else if aborted {
        25
    } else if walk_failed {
        1
    } else if removal_failed {
        4
    } else {
        0
    }
}

pub fn compute_exit_code(
    failure_listing: bool,
    failure_downloading: bool,
    aborted: bool,
    walk_failed: bool,
    removal_failed: bool,
) -> (r: i32)
    ensures
        r == spec_exit_code(
            failure_listing,
            failure_downloading,
            aborted,
            walk_failed,
            removal_failed,
        ),
{
    if failure_downloading {
        2
    } else if failure_listing {
        1
    } else if aborted {
        25
    } else if walk_failed {
        1
    } else if removal_failed {
        4
    } else {
        0
    }
}

/// The fixed offset guessed from a probe: the gap between the
/// parser-reported naive time and the HEAD-reported UTC time, rounded to
/// whole hours (ties away from zero), in seconds east; `None` when the
/// guess is not a valid offset (a day or more).
pub open spec fn spec_guess_timezone(naive: int, head_utc: int) -> Option<int> {
    let gap = naive - head_utc;
    let mag = if gap >= 0 {
        gap
    } else {
        -gap
    };
    let minutes = mag / 60;
    let hours = (minutes + 30) / 60;
    let secs = hours * 3600;
    let signed = if gap >= 0 {
        secs
    } else {
        -secs
    };
    if -86400 < signed < 86400 {
        Some(signed)
    } else {
        None
    }
}

/// Guess the remote timezone from one file seen both in a listing and
/// through a HEAD probe.
pub fn guess_timezone_offset(naive: &NaiveDateTime, head_utc: i64) -> (r: Option<i64>)
    ensures
        match r {
            Some(o) => spec_guess_timezone(naive.secs as int, head_utc as int) == Some(o as int),
            None => spec_guess_timezone(naive.secs as int, head_utc as int) is None,
        },
{
    let gap: i128 = naive.secs as i128 - head_utc as i128;
    let mag: i128 = if gap >= 0 {
        gap
    } else {
        -gap
    };
    let minutes: i128 = mag / 60;
    let hours: i128 = (minutes + 30) / 60;
    let secs: i128 = hours * 3600;
    let signed: i128 = if gap >= 0 {
        secs
    } else {
        -secs
    };
    if -86400 < signed && signed < 86400 {
        Some(signed as i64)
    } else {
        None
    }
}

/// The URL of the first plain file of a listing, the probe target for
/// timezone guessing.
pub open spec fn spec_first_file_url(items: Seq<SpecItem>) -> Option<Seq<u8>>
    decreases items.len(),
{
    if items.len() == 0 {
        None
    } else if items[0].type_ is File {
        Some(items[0].url)
    } else {
        spec_first_file_url(items.drop_first())
    }
}

/// Find the first plain file in a listing.
pub fn first_file_url(items: &Vec<ListItem>) -> (r: Option<String>)
    ensures
        match r {
            Some(u) => spec_first_file_url(crate::parser::items_view(items@)) == Some(
                text_bytes(u@),
            ),
            None => spec_first_file_url(crate::parser::items_view(items@)) is None,
        },
{
    let ghost iv = crate::parser::items_view(items@);
    let n = items.len();
    let mut i: usize = 0;
    proof {
        assert(iv.skip(0) =~= iv);
    }
    while i < n
        invariant
            0 <= i <= n,
            n == items@.len(),
            iv == crate::parser::items_view(items@),
            spec_first_file_url(iv) == spec_first_file_url(iv.skip(i as int)),
        decreases n - i,
    {
        proof {
            assert(iv.skip(i as int)[0] == iv[i as int]);
            assert(iv.skip(i as int).drop_first() =~= iv.skip(i + 1));
        }
        if matches!(items[i].type_, FileType::File) {
            return Some(items[i].url.clone());
        }
        i += 1;
    }
    proof {
        assert(iv.skip(n as int) =~= Seq::<SpecItem>::empty());
    }
    None
}

/// The UTC modification time given to a downloaded file: the HTTP header
/// when present, else the parser-reported time under the known offset when
/// the operator allowed that fallback; without either the download fails.
pub open spec fn spec_download_mtime(
    header_mtime: Option<i64>,
    allow_mtime_from_parser: bool,
    item_mtime: int,
    timezone: Option<i64>,
) -> Option<int> {
    match header_mtime {
        Some(t) => Some(t as int),
        None => if allow_mtime_from_parser {
            Some(crate::utils::spec_naive_to_utc(item_mtime, timezone))
        } else {
            None
        },
    }
}

/// Choose the modification time for a finished download; `None` is the
/// missing-time failure.
pub fn choose_download_mtime(
    header_mtime: Option<i64>,
    allow_mtime_from_parser: bool,
    item_mtime: &NaiveDateTime,
    timezone: Option<i64>,
) -> (r: Option<i64>)
    requires
        i64::MIN + crate::utils::MAX_TZ_OFFSET <= item_mtime.secs <= i64::MAX
            - crate::utils::MAX_TZ_OFFSET,
        timezone matches Some(o) ==> -crate::utils::MAX_TZ_OFFSET <= o
            <= crate::utils::MAX_TZ_OFFSET,
    ensures
        match r {
            Some(t) => spec_download_mtime(
                header_mtime,
                allow_mtime_from_parser,
                item_mtime.secs as int,
                timezone,
            ) == Some(t as int),
            None => spec_download_mtime(
                header_mtime,
                allow_mtime_from_parser,
                item_mtime.secs as int,
                timezone,
            ) is None,
        },
{
    match header_mtime {
        Some(t) => Some(t),
        None => if allow_mtime_from_parser {
            Some(crate::utils::naive_to_utc(item_mtime, timezone))
        } else {
            None
        },
    }
}

} // verus!
