//! The resolution engine: from a pool of raw version texts and an ordered
//! list of range requirements to the latest version for each requirement.
//!
//! Every text of the pool that reads as a version is a candidate; the
//! others are passed over in silence. A candidate belongs to the first
//! requirement, in the order given, that its match key satisfies, and to no
//! other: a broad requirement that follows a narrow one gets only what the
//! narrow one left. Each requirement gets the candidate of highest
//! precedence among its own, or nothing. The engine never fails.
use crate::ranges::{
    any_requirement, matches_all, parse_requirement, parsed_requirement, range_matches, satisfies,
};
use crate::reading::{read, read_version};
use crate::version::{
    lemma_precedes_total, lemma_precedes_transitive, precedes, release, Version, VersionView,
};
use itertools::Itertools;
use semver::{ReqParseError, VersionReq};
use vstd::prelude::*;

verus! {

/// A pool of raw version texts, as the repository published them.
#[derive(Clone, Debug, Default, PartialEq, Eq)]
pub struct Versions {
    pub version: Vec<String>,
}

impl View for Versions {
    type V = Seq<Seq<char>>;

    open spec fn view(&self) -> Seq<Seq<char>> {
        Seq::new(self.version@.len(), |i: int| self.version@[i]@)
    }
}

impl From<Vec<String>> for Versions {
    /// The pool that holds the texts of `version`.
    fn from(version: Vec<String>) -> (pool: Versions)
        ensures
            pool.version == version,
    {
        Versions { version }
    }
}

impl vstd::std_specs::convert::FromSpecImpl<Vec<String>> for Versions {
    open spec fn obeys_from_spec() -> bool {
        true
    }

    open spec fn from_spec(version: Vec<String>) -> Versions {
        Versions { version }
    }
}

impl From<&str> for Versions {
    /// The pool that holds the one text `version`.
    fn from(version: &str) -> (pool: Versions)
        ensures
            pool@ == seq![version@],
    {
        let mut texts: Vec<String> = Vec::new();
        texts.push(version.to_owned());
        let pool = Versions { version: texts };
        assert(pool@ =~= seq![version@]);
        pool
    }
}

impl vstd::std_specs::convert::FromSpecImpl<&str> for Versions {
    open spec fn obeys_from_spec() -> bool {
        false
    }

    open spec fn from_spec(version: &str) -> Versions {
        arbitrary()
    }
}

impl From<&[&str]> for Versions {
    /// The pool that holds the texts of `items`, in order.
    fn from(items: &[&str]) -> (pool: Versions)
        ensures
            pool@ == crate::text::texts(items@),
    {
        let mut texts: Vec<String> = Vec::new();
        let mut i: usize = 0;
        while i < items.len()
            invariant
                i <= items@.len(),
                texts@.len() == i,
                forall|j: int| 0 <= j < i ==> (#[trigger] texts@[j])@ == items@[j]@,
            decreases items@.len() - i,
        {
            texts.push(items[i].to_owned());
            i = i + 1;
        }
        let pool = Versions { version: texts };
        assert(pool@ =~= crate::text::texts(items@));
        pool
    }
}

impl vstd::std_specs::convert::FromSpecImpl<&[&str]> for Versions {
    open spec fn obeys_from_spec() -> bool {
        false
    }

    open spec fn from_spec(items: &[&str]) -> Versions {
        arbitrary()
    }
}

/// The match key of `version`: the version that is tested against the
/// ranges in its place. Where pre-releases are allowed it is the plain
/// release with the same three numbers, so that a pre-release counts for
/// every range that its release is in. Where they are not, it is the
/// version itself, tag and all, and the ranges are left to turn
/// pre-releases down, as they do unless they name one themselves. Either
/// way it is `version` itself that becomes the candidate.
pub open spec fn match_key(version: VersionView, allow_pre_release: bool) -> VersionView {
    if allow_pre_release {
        release(version.major, version.minor, version.patch)
    } else {
        version
    }
}

/// The index of the first requirement that `key` satisfies.
pub open spec fn first_match(requirements: Seq<VersionReq>, key: VersionView) -> Option<int>
    decreases requirements.len(),
{
    if requirements.len() == 0 {
        None
    } else if range_matches(requirements[0], key) {
        Some(0)
    } else {
        match first_match(requirements.skip(1), key) {
            Some(i) => Some(i + 1),
            None => None,
        }
    }
}

/// The candidates of the pool, in pool order, each with the index of the
/// requirement it belongs to. Texts that are no versions, and versions
/// whose match key satisfies no requirement, are left out.
pub open spec fn candidates(
    pool: Seq<Seq<char>>,
    requirements: Seq<VersionReq>,
    allow_pre_release: bool,
) -> Seq<(int, VersionView)>
    decreases pool.len(),
{
    if pool.len() == 0 {
        Seq::empty()
    } else {
        let before = candidates(pool.drop_last(), requirements, allow_pre_release);
        match read_version(pool.last()) {
            None => before,
            Some(version) => match first_match(
                requirements,
                match_key(version, allow_pre_release),
            ) {
                None => before,
                Some(index) => before.push((index, version)),
            },
        }
    }
}

/// The maximal runs of consecutive items with the same key, in order, each
/// with its key.
pub open spec fn runs<V>(items: Seq<(int, V)>) -> Seq<(int, Seq<V>)>
    decreases items.len(),
{
    if items.len() == 0 {
        Seq::empty()
    } else {
        let before = runs(items.drop_last());
        let key = items.last().0;
        if before.len() > 0 && before.last().0 == key {
            before.drop_last().push((key, before.last().1.push(items.last().1)))
        } else {
            before.push((key, seq![items.last().1]))
        }
    }
}

/// The version of highest precedence in a run; of several with that
/// precedence, the last.
pub open spec fn greatest(versions: Seq<VersionView>) -> VersionView
    recommends
        versions.len() > 0,
    decreases versions.len(),
{
    if versions.len() <= 1 {
        versions[0]
    } else {
        let best = greatest(versions.drop_last());
        if precedes(versions.last(), best) {
            best
        } else {
            versions.last()
        }
    }
}

/// `latest` after the run `group` of the requirement `index` was taken in:
/// the run's greatest version replaces what the requirement has if it has
/// nothing, or something of lower precedence.
pub open spec fn taken_in(latest: Seq<Option<VersionView>>, index: int, group: Seq<VersionView>)
    -> Seq<Option<VersionView>> {
    let new = greatest(group);
    match latest[index] {
        None => latest.update(index, Some(new)),
        Some(old) => if precedes(old, new) {
            latest.update(index, Some(new))
        } else {
            latest
        },
    }
}

/// `latest` after all of `groups` were taken in, in order.
pub open spec fn merged(latest: Seq<Option<VersionView>>, groups: Seq<(int, Seq<VersionView>)>)
    -> Seq<Option<VersionView>>
    decreases groups.len(),
{
    if groups.len() == 0 {
        latest
    } else {
        taken_in(merged(latest, groups.drop_last()), groups.last().0, groups.last().1)
    }
}

/// Nothing for each of `n` requirements.
pub open spec fn nothing(n: nat) -> Seq<Option<VersionView>> {
    Seq::new(n, |i: int| None)
}

/// The latest version for each requirement: the candidates are grouped
/// into runs by the requirement they belong to, and the runs are taken in
/// one after the other.
pub open spec fn latest_of(
    pool: Seq<Seq<char>>,
    requirements: Seq<VersionReq>,
    allow_pre_release: bool,
) -> Seq<Option<VersionView>> {
    merged(nothing(requirements.len()), runs(candidates(pool, requirements, allow_pre_release)))
}

/// The candidates that belong to the requirement `index`, in pool order.
pub open spec fn bucket<V>(items: Seq<(int, V)>, index: int) -> Seq<V>
    decreases items.len(),
{
    if items.len() == 0 {
        Seq::empty()
    } else if items.last().0 == index {
        bucket(items.drop_last(), index).push(items.last().1)
    } else {
        bucket(items.drop_last(), index)
    }
}

/// Whether `found` is what a requirement with the candidates `own` is owed:
/// nothing where it has no candidate, else one of its candidates that none
/// of them exceeds in precedence.
pub open spec fn is_latest(found: Option<VersionView>, own: Seq<VersionView>) -> bool {
    match found {
        None => own.len() == 0,
        Some(version) => own.contains(version) && forall|j: int|
            0 <= j < own.len() ==> !precedes(version, #[trigger] own[j]),
    }
}

/// The values of a sequence of versions.
pub open spec fn version_views(versions: Seq<Version>) -> Seq<VersionView> {
    Seq::new(versions.len(), |i: int| versions[i]@)
}

/// The values of a sequence of optional versions.
pub open spec fn option_views(found: Seq<Option<Version>>) -> Seq<Option<VersionView>> {
    Seq::new(
        found.len(),
        |i: int|
            match found[i] {
                Some(version) => Some(version@),
                None => None,
            },
    )
}

/// The values of candidates paired with their requirement's index.
pub open spec fn assigned_views(items: Seq<(usize, Version)>) -> Seq<(int, VersionView)> {
    Seq::new(items.len(), |i: int| (items[i].0 as int, items[i].1@))
}

/// The values of runs paired with their requirement's index.
pub open spec fn group_views(groups: Seq<(usize, Vec<Version>)>) -> Seq<(int, Seq<VersionView>)> {
    Seq::new(groups.len(), |i: int| (groups[i].0 as int, version_views(groups[i].1@)))
}

/// `Itertools::group_by` with the requirement's index as the key, each
/// group collected: consecutive candidates of one requirement form one
/// group, in the order they came in.
#[verifier::external_body]
fn group_runs(items: Vec<(usize, Version)>) -> (groups: Vec<(usize, Vec<Version>)>)
    ensures
        group_views(groups@) == runs(assigned_views(items@)),
{
    let grouped = items.into_iter().group_by(|item| item.0);
    (&grouped).into_iter().map(|(key, group)| (key, group.map(|item| item.1).collect())).collect()
}

/// The index of the first requirement that `key` satisfies is `i`, where no
/// earlier requirement is satisfied and the one at `i` is; there is none,
/// where `i` is the number of requirements.
pub proof fn lemma_first_match(requirements: Seq<VersionReq>, key: VersionView, i: int)
    requires
        0 <= i <= requirements.len(),
        forall|j: int| 0 <= j < i ==> !range_matches(#[trigger] requirements[j], key),
        i < requirements.len() ==> range_matches(requirements[i], key),
    ensures
        first_match(requirements, key) == if i < requirements.len() {
            Some(i)
        } else {
            None::<int>
        },
    decreases i,
{
    if i > 0 {
        let rest = requirements.skip(1);
        assert forall|j: int| 0 <= j < i - 1 implies !range_matches(#[trigger] rest[j], key) by {
            assert(rest[j] == requirements[j + 1]);
        }
        lemma_first_match(rest, key, i - 1);
    }
}

/// The first requirement that a key satisfies is one of the requirements,
/// the key satisfies it, and it satisfies none before it.
pub proof fn lemma_first_match_is_first(requirements: Seq<VersionReq>, key: VersionView)
    ensures
        match first_match(requirements, key) {
            Some(i) => 0 <= i < requirements.len() && range_matches(requirements[i], key)
                && forall|j: int| 0 <= j < i ==> !range_matches(#[trigger] requirements[j], key),
            None => forall|j: int|
                0 <= j < requirements.len() ==> !range_matches(#[trigger] requirements[j], key),
        },
    decreases requirements.len(),
{
    if requirements.len() > 0 && !range_matches(requirements[0], key) {
        let rest = requirements.skip(1);
        lemma_first_match_is_first(rest, key);
        match first_match(rest, key) {
            Some(i) => {
                assert(rest[i] == requirements[i + 1]);
                assert forall|j: int| 0 <= j < i + 1 implies !range_matches(
                    #[trigger] requirements[j],
                    key,
                ) by {
                    if j > 0 {
                        assert(rest[j - 1] == requirements[j]);
                    }
                }
            },
            None => {
                assert forall|j: int| 0 <= j < requirements.len() implies !range_matches(
                    #[trigger] requirements[j],
                    key,
                ) by {
                    if j > 0 {
                        assert(rest[j - 1] == requirements[j]);
                    }
                }
            },
        }
    }
}

/// The first requirement that `key` satisfies.
fn position(requirements: &[VersionReq], key: &Version) -> (found: Option<usize>)
    ensures
        match found {
            Some(i) => i < requirements@.len() && first_match(requirements@, key@) == Some(
                i as int,
            ),
            None => first_match(requirements@, key@) is None,
        },
{
    let mut i: usize = 0;
    while i < requirements.len()
        invariant
            i <= requirements@.len(),
            forall|j: int| 0 <= j < i ==> !range_matches(#[trigger] requirements@[j], key@),
        decreases requirements@.len() - i,
    {
        if satisfies(&requirements[i], key) {
            proof {
                lemma_first_match(requirements@, key@, i as int);
            }
            return Some(i);
        }
        i = i + 1;
    }
    proof {
        lemma_first_match(requirements@, key@, i as int);
    }
    None
}

impl Versions {
    /// The candidates of this pool, each with the index of the requirement
    /// it belongs to.
    fn assign(&self, requirements: &[VersionReq], allow_pre_release: bool) -> (assigned: Vec<
        (usize, Version),
    >)
        ensures
            assigned_views(assigned@) == candidates(self@, requirements@, allow_pre_release),
    {
        let mut assigned: Vec<(usize, Version)> = Vec::new();
        let mut i: usize = 0;
        proof {
            assert(self@.take(0) == Seq::<Seq<char>>::empty());
            assert(assigned_views(assigned@) == Seq::<(int, VersionView)>::empty());
        }
        while i < self.version.len()
            invariant
                i <= self.version@.len(),
                assigned_views(assigned@) == candidates(
                    self@.take(i as int),
                    requirements@,
                    allow_pre_release,
                ),
            decreases self.version@.len() - i,
        {
            proof {
                assert(self@.take(i + 1).drop_last() == self@.take(i as int));
                assert(self@.take(i + 1).last() == self.version@[i as int]@);
            }
            let ghost before = assigned_views(assigned@);
            match read(self.version[i].as_str()) {
                None => {},
                Some(version) => {
                    let found = if allow_pre_release {
                        let key = Version::new(version.major, version.minor, version.patch);
                        position(requirements, &key)
                    } else {
                        position(requirements, &version)
                    };
                    match found {
                        None => {},
                        Some(index) => {
                            assigned.push((index, version));
                            proof {
                                assert(assigned_views(assigned@) == before.push(
                                    (index as int, version@),
                                ));
                            }
                        },
                    }
                },
            }
            i = i + 1;
        }
        proof {
            assert(self@.take(i as int) == self@);
        }
        assigned
    }
}

/// The greatest version of a run is one of the run, and none of the run
/// exceeds it in precedence.
pub proof fn lemma_greatest(versions: Seq<VersionView>)
    requires
        versions.len() > 0,
    ensures
        is_latest(Some(greatest(versions)), versions),
    decreases versions.len(),
{
    if versions.len() <= 1 {
        assert(versions[0] == greatest(versions));
        lemma_precedes_total(versions[0], versions[0]);
    } else {
        let init = versions.drop_last();
        let last = versions.last();
        let best = greatest(init);
        lemma_greatest(init);
        lemma_precedes_total(last, best);
        let i = choose|i: int| 0 <= i < init.len() && init[i] == best;
        assert(versions[i] == best);
        assert(versions[versions.len() - 1] == last);
        if precedes(last, best) {
            assert forall|j: int| 0 <= j < versions.len() implies !precedes(
                best,
                #[trigger] versions[j],
            ) by {
                if j < init.len() {
                    assert(versions[j] == init[j]);
                }
            }
        } else {
            lemma_precedes_total(last, last);
            assert forall|j: int| 0 <= j < versions.len() implies !precedes(
                last,
                #[trigger] versions[j],
            ) by {
                if j < init.len() {
                    assert(versions[j] == init[j]);
                    if precedes(last, init[j]) {
                        if precedes(best, last) {
                            lemma_precedes_transitive(best, last, init[j]);
                        }
                    }
                }
            }
        }
    }
}

/// Whether every item's key is an index below `n`.
pub open spec fn keys_within<V>(items: Seq<(int, V)>, n: nat) -> bool {
    forall|i: int| 0 <= i < items.len() ==> 0 <= (#[trigger] items[i]).0 < n
}

/// Every candidate belongs to one of the requirements.
pub proof fn lemma_candidates_within(
    pool: Seq<Seq<char>>,
    requirements: Seq<VersionReq>,
    allow_pre_release: bool,
)
    ensures
        keys_within(candidates(pool, requirements, allow_pre_release), requirements.len()),
    decreases pool.len(),
{
    if pool.len() > 0 {
        lemma_candidates_within(pool.drop_last(), requirements, allow_pre_release);
        if let Some(version) = read_version(pool.last()) {
            lemma_first_match_is_first(requirements, match_key(version, allow_pre_release));
        }
    }
}

/// A run is never empty, and its key is the key of an item.
pub proof fn lemma_runs_shape<V>(items: Seq<(int, V)>, n: nat)
    requires
        keys_within(items, n),
    ensures
        keys_within(runs(items), n),
        forall|k: int| 0 <= k < runs(items).len() ==> (#[trigger] runs(items)[k]).1.len() > 0,
    decreases items.len(),
{
    if items.len() > 0 {
        let init = items.drop_last();
        assert forall|i: int| 0 <= i < init.len() implies 0 <= (#[trigger] init[i]).0 < n by {
            assert(init[i] == items[i]);
        }
        lemma_runs_shape(init, n);
        assert(0 <= items[items.len() - 1].0 < n);
    }
}

/// The candidates of the requirement `index` that `groups` hold, in order.
pub open spec fn grouped_bucket<V>(groups: Seq<(int, Seq<V>)>, index: int) -> Seq<V>
    decreases groups.len(),
{
    if groups.len() == 0 {
        Seq::empty()
    } else if groups.last().0 == index {
        grouped_bucket(groups.drop_last(), index) + groups.last().1
    } else {
        grouped_bucket(groups.drop_last(), index)
    }
}

/// Grouping into runs neither loses a candidate of a requirement, nor adds
/// one, nor changes their order.
pub proof fn lemma_runs_keep_buckets<V>(items: Seq<(int, V)>, index: int)
    ensures
        grouped_bucket(runs(items), index) == bucket(items, index),
    decreases items.len(),
{
    if items.len() > 0 {
        let init = items.drop_last();
        let before = runs(init);
        let key = items.last().0;
        let value = items.last().1;
        lemma_runs_keep_buckets(init, index);
        if before.len() > 0 && before.last().0 == key {
            let after = before.drop_last().push((key, before.last().1.push(value)));
            assert(after.drop_last() == before.drop_last());
            if key == index {
                assert(grouped_bucket(before.drop_last(), index) + before.last().1.push(value)
                    == (grouped_bucket(before.drop_last(), index) + before.last().1).push(value));
            }
        } else {
            let after = before.push((key, seq![value]));
            assert(after.drop_last() == before);
            if key == index {
                assert(grouped_bucket(before, index) + seq![value] == grouped_bucket(
                    before,
                    index,
                ).push(value));
            }
        }
    }
}

/// Taking runs in one after the other leaves each requirement with what it
/// is owed of the candidates in its runs.
pub proof fn lemma_merged_is_latest(n: nat, groups: Seq<(int, Seq<VersionView>)>, index: int)
    requires
        keys_within(groups, n),
        forall|k: int| 0 <= k < groups.len() ==> (#[trigger] groups[k]).1.len() > 0,
        0 <= index < n,
    ensures
        merged(nothing(n), groups).len() == n,
        is_latest(merged(nothing(n), groups)[index], grouped_bucket(groups, index)),
    decreases groups.len(),
{
    if groups.len() > 0 {
        let init = groups.drop_last();
        let last = groups.last();
        assert forall|k: int| 0 <= k < init.len() implies 0 <= (#[trigger] init[k]).0 < n
            && init[k].1.len() > 0 by {
            assert(init[k] == groups[k]);
        }
        assert(last == groups[groups.len() - 1]);
        lemma_merged_is_latest(n, init, index);
        let before = merged(nothing(n), init);
        let own = grouped_bucket(init, index);
        let new = greatest(last.1);
        lemma_greatest(last.1);
        if last.0 == index {
            let all = own + last.1;
            let at = choose|i: int| 0 <= i < last.1.len() && last.1[i] == new;
            assert(all[own.len() + at] == new);
            match before[index] {
                None => {
                    assert forall|j: int| 0 <= j < all.len() implies !precedes(
                        new,
                        #[trigger] all[j],
                    ) by {
                        assert(all[j] == last.1[j - own.len()]);
                    }
                },
                Some(old) => {
                    let was = choose|i: int| 0 <= i < own.len() && own[i] == old;
                    assert(all[was] == old);
                    if precedes(old, new) {
                        assert forall|j: int| 0 <= j < all.len() implies !precedes(
                            new,
                            #[trigger] all[j],
                        ) by {
                            if j < own.len() {
                                assert(all[j] == own[j]);
                                if precedes(new, own[j]) {
                                    lemma_precedes_transitive(old, new, own[j]);
                                }
                            } else {
                                assert(all[j] == last.1[j - own.len()]);
                            }
                        }
                    } else {
                        assert forall|j: int| 0 <= j < all.len() implies !precedes(
                            old,
                            #[trigger] all[j],
                        ) by {
                            if j < own.len() {
                                assert(all[j] == own[j]);
                            } else {
                                let other = last.1[j - own.len()];
                                assert(all[j] == other);
                                lemma_precedes_total(new, other);
                                if precedes(old, other) && precedes(other, new) {
                                    lemma_precedes_transitive(old, other, new);
                                }
                            }
                        }
                    }
                },
            }
        }
    }
}

/// Grouping the candidates into runs and taking the runs in one after the
/// other gives each requirement what it is owed: nothing where it has no
/// candidate, else one of its candidates that none of them exceeds.
pub proof fn lemma_latest_among(items: Seq<(int, VersionView)>, n: nat, index: int)
    requires
        keys_within(items, n),
        0 <= index < n,
    ensures
        merged(nothing(n), runs(items)).len() == n,
        is_latest(merged(nothing(n), runs(items))[index], bucket(items, index)),
{
    lemma_runs_shape(items, n);
    lemma_runs_keep_buckets(items, index);
    lemma_merged_is_latest(n, runs(items), index);
}

/// Each requirement is owed the candidate of highest precedence among its
/// own, and [`latest_of`] gives it just that: nothing where the requirement
/// has no candidate, else one of its candidates that none of them exceeds.
/// There is one result for each requirement.
pub proof fn lemma_latest_of(
    pool: Seq<Seq<char>>,
    requirements: Seq<VersionReq>,
    allow_pre_release: bool,
    index: int,
)
    requires
        0 <= index < requirements.len(),
    ensures
        latest_of(pool, requirements, allow_pre_release).len() == requirements.len(),
        is_latest(
            latest_of(pool, requirements, allow_pre_release)[index],
            bucket(candidates(pool, requirements, allow_pre_release), index),
        ),
{
    lemma_candidates_within(pool, requirements, allow_pre_release);
    lemma_latest_among(
        candidates(pool, requirements, allow_pre_release),
        requirements.len(),
        index,
    );
}

/// There is one result for each requirement, whatever the pool holds.
pub proof fn lemma_latest_of_len(
    pool: Seq<Seq<char>>,
    requirements: Seq<VersionReq>,
    allow_pre_release: bool,
)
    ensures
        latest_of(pool, requirements, allow_pre_release).len() == requirements.len(),
{
    let found = candidates(pool, requirements, allow_pre_release);
    lemma_candidates_within(pool, requirements, allow_pre_release);
    lemma_runs_shape(found, requirements.len());
    lemma_merged_len(requirements.len(), runs(found));
}

/// Taking runs in keeps one entry for each requirement.
pub proof fn lemma_merged_len(n: nat, groups: Seq<(int, Seq<VersionView>)>)
    requires
        keys_within(groups, n),
    ensures
        merged(nothing(n), groups).len() == n,
    decreases groups.len(),
{
    if groups.len() > 0 {
        let init = groups.drop_last();
        assert forall|k: int| 0 <= k < init.len() implies 0 <= (#[trigger] init[k]).0 < n by {
            assert(init[k] == groups[k]);
        }
        assert(groups.last() == groups[groups.len() - 1]);
        lemma_merged_len(n, init);
    }
}

/// Where the greatest version of a run stands in it.
fn greatest_index(versions: &Vec<Version>) -> (best: usize)
    requires
        versions@.len() > 0,
    ensures
        best < versions@.len(),
        versions@[best as int]@ == greatest(version_views(versions@)),
{
    let ghost all = version_views(versions@);
    let mut best: usize = 0;
    let mut i: usize = 1;
    proof {
        assert(all.take(1)[0] == versions@[0]@);
    }
    while i < versions.len()
        invariant
            all == version_views(versions@),
            1 <= i <= versions@.len(),
            best < i,
            versions@[best as int]@ == greatest(all.take(i as int)),
        decreases versions@.len() - i,
    {
        proof {
            assert(all.take(i + 1).drop_last() == all.take(i as int));
            assert(all.take(i + 1).last() == versions@[i as int]@);
        }
        if !versions[i].lt(&versions[best]) {
            best = i;
        }
        i = i + 1;
    }
    proof {
        assert(all.take(i as int) == all);
    }
    best
}

/// The latest candidate for each of `count` requirements, where each
/// candidate comes with the index of the requirement it belongs to:
/// consecutive candidates of one requirement form a run, the greatest of a
/// run is its last of highest precedence, and a later run takes the place
/// of an earlier one only with a version of higher precedence. So each
/// requirement gets one of its candidates that none of them exceeds.
pub fn latest_among(assigned: Vec<(usize, Version)>, count: usize) -> (latest: Vec<
    Option<Version>,
>)
    requires
        keys_within(assigned_views(assigned@), count as nat),
    ensures
        latest@.len() == count,
        option_views(latest@) == merged(nothing(count as nat), runs(assigned_views(assigned@))),
        forall|i: int|
            0 <= i < count ==> is_latest(
                #[trigger] option_views(latest@)[i],
                bucket(assigned_views(assigned@), i),
            ),
{
    let ghost found = assigned_views(assigned@);
    let ghost n = count as nat;
    let groups = group_runs(assigned);
    let ghost all = group_views(groups@);
    let mut latest: Vec<Option<Version>> = Vec::new();
    while latest.len() < count
        invariant
            latest@.len() <= count,
            option_views(latest@) == nothing(latest@.len()),
        decreases count - latest@.len(),
    {
        let ghost before = latest@;
        latest.push(None);
        proof {
            assert forall|i: int| 0 <= i < latest@.len() implies option_views(latest@)[i]
                == nothing(latest@.len())[i] by {
                if i < before.len() {
                    assert(option_views(before)[i] == nothing(before.len())[i]);
                }
            }
            assert(option_views(latest@) =~= nothing(latest@.len()));
        }
    }
    proof {
        lemma_runs_shape(found, n);
        assert(all.take(0) == Seq::<(int, Seq<VersionView>)>::empty());
    }
    for group in it: groups.into_iter()
        invariant
            n == count,
            all == group_views(it.seq()),
            keys_within(all, n),
            forall|k: int| 0 <= k < all.len() ==> (#[trigger] all[k]).1.len() > 0,
            latest@.len() == n,
            option_views(latest@) == merged(nothing(n), all.take(it.index() as int)),
    {
        let ghost k = it.index() as int;
        let ghost before = option_views(latest@);
        let (index, mut versions) = group;
        proof {
            assert(all[k] == (index as int, version_views(versions@)));
            assert(all.take(k + 1).drop_last() == all.take(k));
            assert(all.take(k + 1).last() == all[k]);
        }
        let best = greatest_index(&versions);
        let ghost run = version_views(versions@);
        let new = versions.swap_remove(best);
        let replace = match &latest[index] {
            None => true,
            Some(old) => old.lt(&new),
        };
        if replace {
            latest.set(index, Some(new));
            proof {
                assert(option_views(latest@) == before.update(index as int, Some(greatest(run))));
            }
        }
    }
    proof {
        assert(all.take(all.len() as int) == all);
        assert forall|i: int| 0 <= i < count implies is_latest(
            #[trigger] option_views(latest@)[i],
            bucket(found, i),
        ) by {
            lemma_latest_among(found, n, i);
        }
    }
    latest
}

impl Versions {
    /// The latest version of the pool for each requirement, in the order of
    /// the requirements. A version of the pool belongs to the first
    /// requirement that its match key satisfies. Each requirement gets the
    /// one of highest precedence among its own, or `None` where it has
    /// none. Texts that are no versions are passed over.
    pub fn find_latest_versions(&self, requirements: &[VersionReq], allow_pre_release: bool) -> (latest:
        Vec<Option<Version>>)
        ensures
            latest@.len() == requirements@.len(),
            option_views(latest@) == latest_of(self@, requirements@, allow_pre_release),
            forall|i: int|
                0 <= i < requirements@.len() ==> is_latest(
                    #[trigger] option_views(latest@)[i],
                    bucket(candidates(self@, requirements@, allow_pre_release), i),
                ),
    {
        let assigned = self.assign(requirements, allow_pre_release);
        proof {
            lemma_candidates_within(self@, requirements@, allow_pre_release);
        }
        latest_among(assigned, requirements.len())
    }
}

/// Whether `requirement` can stand in where no requirement was given. With
/// pre-releases allowed it is one that every version satisfies; without, it
/// is the wildcard `*`, which leaves it to the range engine to pass over
/// pre-releases.
pub open spec fn is_default(requirement: VersionReq, allow_pre_release: bool) -> bool {
    if allow_pre_release {
        matches_all(requirement)
    } else {
        parsed_requirement("*"@) == Ok::<VersionReq, ReqParseError>(requirement)
    }
}

/// The requirements that are resolved: those given, or `fallback` alone
/// where none is given.
pub open spec fn effective(requirements: Seq<VersionReq>, fallback: VersionReq) -> Seq<
    VersionReq,
> {
    if requirements.len() == 0 {
        seq![fallback]
    } else {
        requirements
    }
}

/// The answer for a pool: each effective requirement, in order, with the
/// latest version that belongs to it.
pub open spec fn resolved(
    pool: Seq<Seq<char>>,
    requirements: Seq<VersionReq>,
    allow_pre_release: bool,
    fallback: VersionReq,
) -> Seq<(VersionReq, Option<VersionView>)> {
    let used = effective(requirements, fallback);
    Seq::new(used.len(), |i: int| (used[i], latest_of(pool, used, allow_pre_release)[i]))
}

/// The values of an answer.
pub open spec fn answer_views(answer: Seq<(VersionReq, Option<Version>)>) -> Seq<
    (VersionReq, Option<VersionView>),
> {
    Seq::new(
        answer.len(),
        |i: int|
            (
                answer[i].0,
                match answer[i].1 {
                    Some(version) => Some(version@),
                    None => None,
                },
            ),
    )
}

/// The requirement that stands in where none is given.
pub fn default_requirement(allow_pre_release: bool) -> (requirement: VersionReq)
    ensures
        is_default(requirement, allow_pre_release),
{
    if allow_pre_release {
        any_requirement()
    } else {
        match parse_requirement("*") {
            Ok(requirement) => requirement,
            Err(_) => vstd::pervasive::unreached(),
        }
    }
}

impl Versions {
    /// The pool that holds `version`.
    pub fn new(version: Vec<String>) -> (pool: Versions)
        ensures
            pool.version == version,
    {
        Versions { version }
    }

    /// The answer for this pool: each requirement, in the order given, with
    /// the latest version that belongs to it. Where no requirement is given,
    /// a single default requirement stands in.
    pub fn latest_versions(&self, allow_pre_release: bool, requirements: Vec<VersionReq>) -> (answer:
        Vec<(VersionReq, Option<Version>)>)
        ensures
            answer@.len() >= 1,
            requirements@.len() > 0 ==> answer@.len() == requirements@.len(),
            requirements@.len() == 0 ==> is_default(answer@[0].0, allow_pre_release),
            answer_views(answer@) == resolved(
                self@,
                requirements@,
                allow_pre_release,
                answer@[0].0,
            ),
    {
        let ghost given = requirements@;
        let mut requirements = requirements;
        if requirements.len() == 0 {
            requirements.push(default_requirement(allow_pre_release));
        }
        let mut latest = self.find_latest_versions(requirements.as_slice(), allow_pre_release);
        let ghost used = requirements@;
        let ghost found = latest@;
        let ghost n = used.len();
        let mut reversed: Vec<(VersionReq, Option<Version>)> = Vec::new();
        while requirements.len() > 0
            invariant
                n == used.len(),
                n == found.len(),
                reversed@.len() <= n,
                requirements@ == used.take(n - reversed@.len()),
                latest@ == found.take(n - reversed@.len()),
                forall|j: int|
                    0 <= j < reversed@.len() ==> #[trigger] reversed@[j] == (
                        used[n - 1 - j],
                        found[n - 1 - j],
                    ),
            decreases requirements@.len(),
        {
            let ghost left = n - reversed@.len();
            let requirement = requirements.pop().unwrap();
            let version = latest.pop().unwrap();
            reversed.push((requirement, version));
            proof {
                assert(used.take(left).drop_last() == used.take(left - 1));
                assert(found.take(left).drop_last() == found.take(left - 1));
            }
        }
        let ghost turned = reversed@;
        let mut answer: Vec<(VersionReq, Option<Version>)> = Vec::new();
        while reversed.len() > 0
            invariant
                n == used.len(),
                n == found.len(),
                n == turned.len(),
                answer@.len() <= n,
                reversed@ == turned.take(n - answer@.len()),
                forall|j: int|
                    0 <= j < n ==> #[trigger] turned[j] == (used[n - 1 - j], found[n - 1 - j]),
                forall|j: int| 0 <= j < answer@.len() ==> #[trigger] answer@[j] == (used[j], found[j]),
            decreases reversed@.len(),
        {
            let ghost left = n - answer@.len();
            let pair = reversed.pop().unwrap();
            proof {
                assert(turned.take(left).drop_last() == turned.take(left - 1));
                assert(pair == turned[left - 1]);
            }
            answer.push(pair);
        }
        proof {
            assert(answer@.len() == n);
            assert(answer@[0] == (used[0], found[0]));
            assert(effective(given, answer@[0].0) =~= used);
            assert forall|i: int| 0 <= i < n implies answer_views(answer@)[i] == (
                used[i],
                latest_of(self@, used, allow_pre_release)[i],
            ) by {
                assert(answer@[i] == (used[i], found[i]));
                assert(option_views(found)[i] == latest_of(self@, used, allow_pre_release)[i]);
            }
            assert(answer_views(answer@) =~= Seq::new(
                n,
                |i: int| (used[i], latest_of(self@, used, allow_pre_release)[i]),
            ));
        }
        answer
    }
}

/// All the versions that the texts of the pool are read as, in pool order.
pub open spec fn parsed(pool: Seq<Seq<char>>) -> Seq<VersionView>
    decreases pool.len(),
{
    if pool.len() == 0 {
        Seq::empty()
    } else {
        match read_version(pool.last()) {
            Some(version) => parsed(pool.drop_last()).push(version),
            None => parsed(pool.drop_last()),
        }
    }
}

/// The number of candidates that belong to the first `n` requirements.
pub open spec fn bucket_sizes<V>(items: Seq<(int, V)>, n: nat) -> nat
    decreases n,
{
    if n == 0 {
        0
    } else {
        bucket_sizes(items, (n - 1) as nat) + bucket(items, n - 1).len()
    }
}

/// Where requirements are given, the answer has one entry for each of
/// them, in their order, whatever the pool and the policy.
pub proof fn lemma_one_answer_for_each_requirement(
    pool: Seq<Seq<char>>,
    requirements: Seq<VersionReq>,
    allow_pre_release: bool,
    fallback: VersionReq,
)
    requires
        requirements.len() > 0,
    ensures
        resolved(pool, requirements, allow_pre_release, fallback).len() == requirements.len(),
        latest_of(pool, requirements, allow_pre_release).len() == requirements.len(),
        forall|i: int|
            0 <= i < requirements.len() ==> (#[trigger] resolved(
                pool,
                requirements,
                allow_pre_release,
                fallback,
            )[i]).0 == requirements[i],
{
    lemma_latest_of_len(pool, requirements, allow_pre_release);
}

/// Without requirements and without pre-releases, a pool is resolved as it
/// is for the single requirement `*`.
pub proof fn lemma_no_requirement_is_star(pool: Seq<Seq<char>>, star: VersionReq)
    requires
        is_default(star, false),
    ensures
        resolved(pool, Seq::empty(), false, star) == resolved(pool, seq![star], false, star),
{
    assert(effective(Seq::empty(), star) == effective(seq![star], star));
}

/// Without requirements and with pre-releases allowed, the single answer is
/// the version of highest precedence among all the versions of the pool,
/// pre-releases included, or nothing where the pool holds no version.
pub proof fn lemma_no_requirement_is_overall_latest(pool: Seq<Seq<char>>, any: VersionReq)
    requires
        is_default(any, true),
    ensures
        resolved(pool, Seq::empty(), true, any).len() == 1,
        resolved(pool, Seq::empty(), true, any)[0].0 == any,
        is_latest(resolved(pool, Seq::empty(), true, any)[0].1, parsed(pool)),
{
    let used = seq![any];
    assert(effective(Seq::empty(), any) == used);
    lemma_latest_of(pool, used, true, 0);
    lemma_all_in_one_bucket(pool, any);
}

/// Where every version satisfies the single requirement, all the versions
/// of the pool belong to it.
pub proof fn lemma_all_in_one_bucket(pool: Seq<Seq<char>>, any: VersionReq)
    requires
        matches_all(any),
    ensures
        bucket(candidates(pool, seq![any], true), 0) == parsed(pool),
    decreases pool.len(),
{
    if pool.len() > 0 {
        lemma_all_in_one_bucket(pool.drop_last(), any);
        if let Some(version) = read_version(pool.last()) {
            let key = match_key(version, true);
            assert(range_matches(seq![any][0], key));
            let found = candidates(pool, seq![any], true);
            assert(found.drop_last() == candidates(pool.drop_last(), seq![any], true));
        }
    }
}

/// A candidate belongs to one requirement only: the sizes of the buckets of
/// all the requirements add up to the number of candidates.
pub proof fn lemma_buckets_partition<V>(items: Seq<(int, V)>, n: nat)
    requires
        keys_within(items, n),
    ensures
        bucket_sizes(items, n) == items.len(),
    decreases items.len(),
{
    if items.len() == 0 {
        lemma_no_item_no_bucket(items, n);
    } else {
        let init = items.drop_last();
        assert forall|i: int| 0 <= i < init.len() implies 0 <= (#[trigger] init[i]).0 < n by {
            assert(init[i] == items[i]);
        }
        lemma_buckets_partition(init, n);
        assert(0 <= items[items.len() - 1].0 < n);
        lemma_one_more_item(items, n);
    }
}

/// Without candidates every bucket is empty.
proof fn lemma_no_item_no_bucket<V>(items: Seq<(int, V)>, n: nat)
    requires
        items.len() == 0,
    ensures
        bucket_sizes(items, n) == 0,
    decreases n,
{
    if n > 0 {
        lemma_no_item_no_bucket(items, (n - 1) as nat);
    }
}

/// One more candidate makes the buckets of the first `n` requirements hold
/// one more, if it belongs to one of them, and leaves them alone if not.
proof fn lemma_one_more_item<V>(items: Seq<(int, V)>, n: nat)
    requires
        items.len() > 0,
        0 <= items.last().0,
    ensures
        bucket_sizes(items, n) == bucket_sizes(items.drop_last(), n) + if items.last().0 < n {
            1nat
        } else {
            0nat
        },
    decreases n,
{
    if n > 0 {
        lemma_one_more_item(items, (n - 1) as nat);
    }
}

} // verus!
