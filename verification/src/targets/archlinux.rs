//! The Arch Linux target: a structured mirror list, filtered by completion and
//! delay and ordered by a selectable strategy.

use crate::config::{AppError, FetchMirrors, LogFormatter};
use crate::countries::{recognized, Country};
use crate::fetch::{FetchPlan, FetchPlanView};
use crate::mirror::{code_of, lemma_resolving_item_is_kept, mirror_views, resolved, Mirror, MirrorView};
use crate::sorting::{is_ordering_of, lemma_ordering_permutes, sort_mirrors, stable_sort};
use crate::target_configs::archlinux::{ArchTarget, SortingStrategy};
use crate::text::{decimal, push_decimal, string_of};
use crate::urls::{joined_url, parsed_url};
use vstd::prelude::*;
use vstd::seq_lib::to_multiset_contains;
use vstd::string::StringExecFns;

verus! {

/// One entry of the structured mirror list.
///
/// `score` and `completion_pct` are integer ranks that keep the order of the
/// source's numbers; an absent number is `None`.
#[derive(Clone, Debug, PartialEq, Eq)]
pub struct ArchMirror {
    pub protocol: String,
    pub url: String,
    pub score: Option<i64>,
    pub delay: Option<i64>,
    pub country_code: String,
    pub completion_pct: Option<i64>,
}

/// The mirror that `entry` resolves to with the test path `path_to_test`: its
/// URL must parse and the path must join onto it. The country is the one that
/// the entry's country code names, if it is recognized.
pub open spec fn mirror_of(entry: ArchMirror, path_to_test: Seq<char>) -> Option<MirrorView> {
    resolved(recognized(entry.country_code@), entry.url@, path_to_test)
}

/// The mirrors that `entries` resolve to, in the order of the entries;
/// entries that do not resolve are left out.
pub open spec fn normalized(entries: Seq<ArchMirror>, path_to_test: Seq<char>) -> Seq<MirrorView> {
    entries.filter_map(|entry: ArchMirror| mirror_of(entry, path_to_test))
}

/// The progress message that reports how many entries were fetched.
pub open spec fn fetched_message(count: nat) -> Seq<char> {
    "FETCHED MIRRORS: "@ + decimal(count)
}

/// The fetch plan of the Arch Linux target: the mirror list proxy first, the
/// distribution's own status page as the fallback; the first-tier lists where
/// only the first tier is asked for.
pub open spec fn arch_plan(first_tier_only: bool, timeout_ms: u64) -> FetchPlanView {
    FetchPlanView {
        primary_url: if first_tier_only {
            "https://cachyos.org/archlinuxmirrorlist/api/tier1"@
        } else {
            "https://cachyos.org/archlinuxmirrorlist/api/status"@
        },
        fallback_url: if first_tier_only {
            "https://archlinux.org/mirrors/status/tier/1/json/"@
        } else {
            "https://archlinux.org/mirrors/status/json/"@
        },
        timeout_ms,
        fallback_notice: "# Falling back mirrorlist url to archlinux"@,
    }
}

/// Writes the progress message that reports `count` fetched entries.
pub fn progress_message(count: usize) -> (message: String)
    ensures
        message@ == fetched_message(count as nat),
{
    let mut digits: Vec<char> = Vec::new();
    push_decimal(&mut digits, count as u64);
    assert(digits@ =~= decimal(count as nat));
    let mut message = "FETCHED MIRRORS: ".to_owned();
    message.append(string_of(&digits).as_str());
    message
}

impl ArchTarget {
    /// Whether `entry` passes the filter: completion and delay are both
    /// present, the completion reaches the threshold and the delay does not
    /// exceed the limit. An entry that lacks either number is rejected.
    pub open spec fn accepts_spec(&self, entry: ArchMirror) -> bool {
        match (entry.completion_pct, entry.delay) {
            (Some(completion), Some(delay)) => completion >= self.completion && delay
                <= self.max_delay,
            _ => false,
        }
    }

    /// The filter as a predicate.
    pub open spec fn acceptance(&self) -> spec_fn(ArchMirror) -> bool {
        |entry: ArchMirror| self.accepts_spec(entry)
    }

    /// Decides whether `entry` passes the filter.
    pub fn accepts(&self, entry: &ArchMirror) -> (accepted: bool)
        ensures
            accepted == self.accepts_spec(*entry),
    {
        match entry.completion_pct {
            Some(completion) => match entry.delay {
                Some(delay) => completion >= self.completion && delay <= self.max_delay,
                None => false,
            },
            None => false,
        }
    }

    /// Keeps the entries that pass the filter, in their order.
    pub fn retain_accepted(&self, entries: Vec<ArchMirror>) -> (accepted: Vec<ArchMirror>)
        ensures
            accepted@ == entries@.filter(self.acceptance()),
    {
        let ghost given = entries@;
        let mut accepted: Vec<ArchMirror> = Vec::new();
        proof {
            assert(given.take(0).filter(self.acceptance()) =~= Seq::<ArchMirror>::empty()) by {
                reveal(Seq::filter);
            }
        }
        for entry in it: entries
            invariant
                it.seq() == given,
                accepted@ == given.take(it.index() as int).filter(self.acceptance()),
        {
            proof {
                let k = it.index() as int;
                assert(given.take(k + 1) =~= given.take(k).push(given[k]));
                given.take(k).lemma_filter_push(given[k], self.acceptance());
            }
            if self.accepts(&entry) {
                accepted.push(entry);
            }
        }
        proof {
            assert(given.take(given.len() as int) =~= given);
        }
        accepted
    }

    /// Resolves one entry: parses its URL, joins the test path onto it and
    /// looks up its country. Yields nothing where the URL does not parse or
    /// the path does not join.
    pub fn to_mirror(&self, entry: &ArchMirror) -> (mirror: Option<Mirror>)
        ensures
            match mirror {
                Some(m) => mirror_of(*entry, self.path_to_test@) == Some(m@) && m@.well_formed(),
                None => mirror_of(*entry, self.path_to_test@) is None,
            },
    {
        let country = Country::from_str(entry.country_code.as_str());
        assert(code_of(country) == recognized(entry.country_code@));
        Mirror::resolve(country, entry.url.as_str(), self.path_to_test.as_str())
    }

    /// Resolves the entries in their order and leaves out those that do not
    /// resolve.
    pub fn normalize(&self, entries: &Vec<ArchMirror>) -> (mirrors: Vec<Mirror>)
        ensures
            mirror_views(mirrors@) == normalized(entries@, self.path_to_test@),
            forall|i: int| 0 <= i < mirrors@.len() ==> (#[trigger] mirror_views(mirrors@)[i]).well_formed(),
    {
        let ghost path = self.path_to_test@;
        let ghost resolve = |entry: ArchMirror| mirror_of(entry, path);
        let mut mirrors: Vec<Mirror> = Vec::new();
        let mut i: usize = 0;
        proof {
            assert(mirror_views(mirrors@) =~= entries@.take(0).filter_map(resolve));
        }
        while i < entries.len()
            invariant
                i <= entries.len(),
                path == self.path_to_test@,
                resolve == |entry: ArchMirror| mirror_of(entry, path),
                mirror_views(mirrors@) == entries@.take(i as int).filter_map(resolve),
                forall|k: int| 0 <= k < mirrors@.len() ==> (#[trigger] mirror_views(mirrors@)[k]).well_formed(),
            decreases entries.len() - i,
        {
            let ghost before = mirrors@;
            proof {
                entries@.lemma_filter_map_take_succ(resolve, i as int);
            }
            match self.to_mirror(&entries[i]) {
                Some(mirror) => {
                    mirrors.push(mirror);
                    proof {
                        assert(mirror_views(mirrors@) =~= mirror_views(before) + seq![mirror@]);
                        assert forall|k: int| 0 <= k < mirrors@.len() implies (#[trigger] mirror_views(
                            mirrors@,
                        )[k]).well_formed() by {
                            if k < before.len() {
                                assert(mirror_views(mirrors@)[k] == mirror_views(before)[k]);
                            }
                        }
                    }
                },
                None => {
                    proof {
                        assert(mirror_views(before) + Seq::<MirrorView>::empty() =~= mirror_views(
                            before,
                        ));
                    }
                },
            }
            i += 1;
        }
        proof {
            assert(entries@.take(entries@.len() as int) =~= entries@);
        }
        mirrors
    }
}

/// Every entry that passes the filter has both numbers, a completion that
/// reaches the threshold and a delay that does not exceed the limit.
pub proof fn lemma_accepted_meet_thresholds(target: ArchTarget, entries: Seq<ArchMirror>, i: int)
    requires
        0 <= i < entries.filter(target.acceptance()).len(),
    ensures
        entries.contains(entries.filter(target.acceptance())[i]),
        entries.filter(target.acceptance())[i].completion_pct matches Some(completion)
            && completion >= target.completion,
        entries.filter(target.acceptance())[i].delay matches Some(delay) && delay
            <= target.max_delay,
{
    let accepted = entries.filter(target.acceptance());
    entries.lemma_filter_pred(target.acceptance(), i);
    assert(accepted.contains(accepted[i]));
    entries.lemma_filter_contains_rev(target.acceptance(), accepted[i]);
}

/// Every mirror that the target yields comes from an entry of the payload
/// that passes the filter, whose URL parses and onto which the test path
/// joins. So an entry that lacks a number, misses a threshold or is
/// malformed gives no mirror.
pub proof fn lemma_mirror_has_valid_source(target: ArchTarget, entries: Seq<ArchMirror>, ordered: Seq<ArchMirror>, i: int) -> (entry: ArchMirror)
    requires
        is_ordering_of(ordered, entries.filter(target.acceptance()), target.sort_mirrors_by),
        0 <= i < normalized(ordered, target.path_to_test@).len(),
    ensures
        entries.contains(entry),
        target.accepts_spec(entry),
        mirror_of(entry, target.path_to_test@) == Some(normalized(ordered, target.path_to_test@)[i]),
        parsed_url(entry.url@) is Some,
        joined_url(parsed_url(entry.url@)->0, target.path_to_test@) is Some,
{
    let path = target.path_to_test@;
    let resolve = |entry: ArchMirror| mirror_of(entry, path);
    let mirrors = normalized(ordered, path);
    let accepted = entries.filter(target.acceptance());
    assert(mirrors.contains(mirrors[i]));
    ordered.lemma_filter_map_contains(resolve, mirrors[i]);
    let entry = choose|t: ArchMirror| #[trigger] ordered.contains(t) && resolve(t) == Some(mirrors[i]);
    lemma_ordering_permutes(ordered, accepted, target.sort_mirrors_by);
    to_multiset_contains(ordered, entry);
    to_multiset_contains(accepted, entry);
    let k = choose|k: int| 0 <= k < accepted.len() && accepted[k] == entry;
    entries.lemma_filter_pred(target.acceptance(), k);
    entries.lemma_filter_contains_rev(target.acceptance(), entry);
    entry
}

/// Every entry of the payload that passes the filter and resolves gives a
/// mirror, whatever the order.
pub proof fn lemma_valid_entry_gives_mirror(target: ArchTarget, entries: Seq<ArchMirror>, ordered: Seq<ArchMirror>, j: int)
    requires
        is_ordering_of(ordered, entries.filter(target.acceptance()), target.sort_mirrors_by),
        0 <= j < entries.len(),
        target.accepts_spec(entries[j]),
        mirror_of(entries[j], target.path_to_test@) is Some,
    ensures
        normalized(ordered, target.path_to_test@).contains(
            mirror_of(entries[j], target.path_to_test@)->0,
        ),
{
    let path = target.path_to_test@;
    let resolve = |entry: ArchMirror| mirror_of(entry, path);
    let accepted = entries.filter(target.acceptance());
    entries.lemma_filter_contains(target.acceptance(), j);
    lemma_ordering_permutes(ordered, accepted, target.sort_mirrors_by);
    to_multiset_contains(ordered, entries[j]);
    to_multiset_contains(accepted, entries[j]);
    let k = choose|k: int| 0 <= k < ordered.len() && ordered[k] == entries[j];
    lemma_resolving_item_is_kept(ordered, resolve, k);
}

impl LogFormatter for ArchTarget {
    /// The comment prefix, then the message.
    open spec fn comment_line(&self, message: Seq<char>) -> Seq<char> {
        self.comment_prefix@ + message
    }

    /// The server directive of the mirror's URL, with the placeholders for
    /// repository and architecture behind it.
    open spec fn mirror_line(&self, mirror: MirrorView) -> Seq<char> {
        "Server = "@ + mirror.url + "$repo/os/$arch"@
    }

    fn format_comment(&self, message: &str) -> (line: String) {
        let mut line = self.comment_prefix.clone();
        line.append(message);
        line
    }

    fn format_mirror(&self, mirror: &Mirror) -> (line: String) {
        let mut line = "Server = ".to_owned();
        line.append(mirror.url.as_str());
        line.append("$repo/os/$arch");
        line
    }
}

impl FetchMirrors for ArchTarget {
    type Payload = Vec<ArchMirror>;

    /// One message: the number of entries fetched.
    open spec fn progress_of(&self, payload: Vec<ArchMirror>) -> Seq<Seq<char>> {
        seq![fetched_message(payload@.len())]
    }

    /// The plan for the configured tier and timeout.
    open spec fn plan(&self) -> FetchPlanView {
        arch_plan(self.fetch_first_tier_only, self.fetch_mirrors_timeout)
    }

    fn fetch_plan(&self) -> (plan: FetchPlan) {
        if self.fetch_first_tier_only {
            FetchPlan {
                primary_url: "https://cachyos.org/archlinuxmirrorlist/api/tier1".to_owned(),
                fallback_url: "https://archlinux.org/mirrors/status/tier/1/json/".to_owned(),
                timeout_ms: self.fetch_mirrors_timeout,
                fallback_notice: "# Falling back mirrorlist url to archlinux".to_owned(),
            }
        } else {
            FetchPlan {
                primary_url: "https://cachyos.org/archlinuxmirrorlist/api/status".to_owned(),
                fallback_url: "https://archlinux.org/mirrors/status/json/".to_owned(),
                timeout_ms: self.fetch_mirrors_timeout,
                fallback_notice: "# Falling back mirrorlist url to archlinux".to_owned(),
            }
        }
    }

    /// Reports the number of fetched entries, keeps the entries that pass the
    /// filter, orders them by the configured strategy and resolves them.
    fn fetch_mirrors(&self, fetched: Result<Vec<ArchMirror>, AppError>, progress: &mut Vec<String>) -> (result: Result<Vec<Mirror>, AppError>)
        ensures
            fetched matches Ok(entries) ==> (result matches Ok(mirrors) && exists|
                ordered: Seq<ArchMirror>,
            |
                #[trigger] is_ordering_of(
                    ordered,
                    entries@.filter(self.acceptance()),
                    self.sort_mirrors_by,
                ) && mirror_views(mirrors@) == normalized(ordered, self.path_to_test@)),
            fetched matches Ok(entries) ==> (!(self.sort_mirrors_by is Random) ==> (result matches Ok(
                mirrors,
            ) && mirror_views(mirrors@) == normalized(
                stable_sort(entries@.filter(self.acceptance()), self.sort_mirrors_by),
                self.path_to_test@,
            ))),
    {
        match fetched {
            Ok(entries) => {
                progress.push(progress_message(entries.len()));
                let mut accepted = self.retain_accepted(entries);
                sort_mirrors(&mut accepted, self.sort_mirrors_by);
                let mirrors = self.normalize(&accepted);
                assert(is_ordering_of(
                    accepted@,
                    entries@.filter(self.acceptance()),
                    self.sort_mirrors_by,
                ));
                Ok(mirrors)
            },
            Err(error) => Err(error),
        }
    }
}

} // verus!
