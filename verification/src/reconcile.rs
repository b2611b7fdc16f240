//! How what the sources list changes the inventory.

use vstd::prelude::*;

use crate::config::{Config, repo_name_problem, valid_repo_name, validate_repo_name};
use crate::error::{Error, ErrorModel, Result};
use crate::inventory::{
    Inventory, consistent, found_ids, id_by_url, identity_problem, law_reconciling_destroys_nothing,
    lemma_lists_some, lemma_problem_is_unreadable, listed_ids, listing_problem, lists, readable, reconciled,
};
use crate::model::{RecordModel, RepoRecord, RepoSpec, SpecModel, records, specs};
use crate::state::State;
use crate::string_set::{StringSet, increasing, lemma_increasing_distinct};
use crate::sync::{
    Listing, ListingModel, RepositoryChange, RepositoryChangeKind, SyncPreview, listings,
};
use crate::text::{before, cat2, cat5, debug_quote, texts};
use crate::text_map::TextMap;

verus! {

/// What a preview knows of the inventory: which identifier has a remote, which
/// remote an identifier has, and which sources list it.
pub struct Plan {
    pub ids: Map<Seq<char>, Seq<char>>,
    pub urls: Map<Seq<char>, Seq<char>>,
    pub sources: Map<Seq<char>, Set<Seq<char>>>,
}

/// What the first of some records say.
pub open spec fn plan_of(current: Seq<RecordModel>, count: int) -> Plan
    decreases count,
{
    if count <= 0 {
        Plan { ids: Map::empty(), urls: Map::empty(), sources: Map::empty() }
    } else {
        let earlier = plan_of(current, count - 1);
        let repo = current[count - 1];
        Plan {
            ids: earlier.ids.insert(repo.canonical_url, repo.id),
            urls: earlier.urls.insert(repo.id, repo.canonical_url),
            sources: earlier.sources.insert(repo.id, repo.sources),
        }
    }
}

/// The plan once a source lists nothing.
pub open spec fn plan_without(plan: Plan, source: Seq<char>) -> Plan {
    Plan {
        sources: plan.sources.map_values(|sources: Set<Seq<char>>| sources.remove(source)),
        ..plan
    }
}

/// The sources that list a repository in a plan.
pub open spec fn planned_sources(plan: Plan, id: Seq<char>) -> Set<Seq<char>> {
    if plan.sources.contains_key(id) {
        plan.sources[id]
    } else {
        Set::empty()
    }
}

/// The plan once a source lists one more repository.
pub open spec fn plan_spec(plan: Plan, source: Seq<char>, spec: SpecModel) -> std::result::Result<
    Plan,
    ErrorModel,
> {
    if !valid_repo_name(spec.id) {
        Err(ErrorModel::Config(repo_name_problem(spec.id)))
    } else if plan.ids.contains_key(spec.canonical_url) {
        let id = plan.ids[spec.canonical_url];
        Ok(
            Plan {
                sources: plan.sources.insert(id, planned_sources(plan, id).insert(source)),
                ..plan
            },
        )
    } else if plan.urls.contains_key(spec.id) {
        Err(identity_problem(spec.id, plan.urls[spec.id], spec.canonical_url))
    } else {
        Ok(
            Plan {
                ids: plan.ids.insert(spec.canonical_url, spec.id),
                urls: plan.urls.insert(spec.id, spec.canonical_url),
                sources: plan.sources.insert(
                    spec.id,
                    planned_sources(plan, spec.id).insert(source),
                ),
            },
        )
    }
}

/// The plan once a source lists the first of some repositories.
pub open spec fn plan_specs(
    plan: Plan,
    source: Seq<char>,
    found: Seq<SpecModel>,
    count: int,
) -> std::result::Result<Plan, ErrorModel>
    decreases count,
{
    if count <= 0 {
        Ok(plan)
    } else {
        match plan_specs(plan, source, found, count - 1) {
            Err(problem) => Err(problem),
            Ok(earlier) => plan_spec(earlier, source, found[count - 1]),
        }
    }
}

/// The plan after the first of some sources have listed their repositories.
pub open spec fn plan_all(plan: Plan, list: Seq<ListingModel>, count: int) -> std::result::Result<
    Plan,
    ErrorModel,
>
    decreases count,
{
    if count <= 0 {
        Ok(plan)
    } else {
        match plan_all(plan, list, count - 1) {
            Err(problem) => Err(problem),
            Ok(earlier) => {
                let (source, found) = list[count - 1];
                plan_specs(plan_without(earlier, source), source, found, found.len() as int)
            },
        }
    }
}

/// The repositories that some source lists in a plan.
pub open spec fn planned_active(plan: Plan) -> Set<Seq<char>> {
    Set::new(
        |id: Seq<char>|
            plan.sources.contains_key(id) && exists|source: Seq<char>| #[trigger]
                plan.sources[id].contains(source),
    )
}

/// The active repositories among some records.
pub open spec fn active_ids(current: Seq<RecordModel>) -> Set<Seq<char>> {
    Set::new(
        |id: Seq<char>|
            exists|i: int|
                0 <= i < current.len() && (#[trigger] current[i]).id == id && current[i].active,
    )
}

/// The identifiers of some changes.
pub open spec fn change_ids(changes: Seq<RepositoryChange>) -> Seq<Seq<char>> {
    Seq::new(changes.len(), |i: int| changes[i].id@)
}

/// Whether a preview tells how the active repositories change: each repository
/// that becomes active or inactive, in the order of the identifiers, and the
/// number of those that stay active.
pub open spec fn previews(
    preview: SyncPreview,
    current: Set<Seq<char>>,
    desired: Set<Seq<char>>,
) -> bool {
    let ids = change_ids(preview.changes@);
    &&& increasing(ids)
    &&& ids.to_set() == current.difference(desired).union(desired.difference(current))
    &&& forall|i: int|
        0 <= i < preview.changes@.len() ==> (#[trigger] preview.changes@[i]).kind == (
        if desired.contains(preview.changes@[i].id@) {
            RepositoryChangeKind::Activate
        } else {
            RepositoryChangeKind::Deactivate
        })
    &&& current.intersect(desired).finite()
    &&& preview.unchanged == current.intersect(desired).len()
}

/// What a preview knows of the inventory.
struct PlanMaps {
    ids: TextMap<String>,
    urls: TextMap<String>,
    sources: TextMap<StringSet>,
}

/// A map of texts as characters.
spec fn text_map(map: Map<Seq<char>, String>) -> Map<Seq<char>, Seq<char>> {
    map.map_values(|text: String| text@)
}

/// A map of sets of texts as characters.
spec fn set_map(map: Map<Seq<char>, StringSet>) -> Map<Seq<char>, Set<Seq<char>>> {
    map.map_values(|set: StringSet| set@)
}

impl View for PlanMaps {
    type V = Plan;

    closed spec fn view(&self) -> Plan {
        Plan {
            ids: text_map(self.ids@),
            urls: text_map(self.urls@),
            sources: set_map(self.sources@),
        }
    }
}

/// What some records say.
fn plan_records(current: &Vec<RepoRecord>) -> (plan: PlanMaps)
    ensures
        plan@ == plan_of(records(current@), current@.len() as int),
{
    let ghost all = records(current@);
    let mut ids: TextMap<String> = TextMap::new();
    let mut urls: TextMap<String> = TextMap::new();
    let mut sources: TextMap<StringSet> = TextMap::new();
    let mut i: usize = 0;
    proof {
        assert(text_map(ids@) =~= Map::empty());
        assert(text_map(urls@) =~= Map::empty());
        assert(set_map(sources@) =~= Map::empty());
    }
    while i < current.len()
        invariant
            i <= current@.len(),
            all == records(current@),
            text_map(ids@) == plan_of(all, i as int).ids,
            text_map(urls@) == plan_of(all, i as int).urls,
            set_map(sources@) == plan_of(all, i as int).sources,
        decreases current@.len() - i,
    {
        let ghost before_ids = ids@;
        let ghost before_urls = urls@;
        let ghost before_sources = sources@;
        let repo = &current[i];
        ids.insert(repo.canonical_url.clone(), repo.id.clone());
        urls.insert(repo.id.clone(), repo.canonical_url.clone());
        sources.insert(repo.id.clone(), repo.sources.clone());
        proof {
            assert(all[i as int] == repo@);
            assert(text_map(ids@) =~= text_map(before_ids).insert(
                repo@.canonical_url,
                repo@.id,
            ));
            assert(text_map(urls@) =~= text_map(before_urls).insert(
                repo@.id,
                repo@.canonical_url,
            ));
            assert(set_map(sources@) =~= set_map(before_sources).insert(repo@.id, repo@.sources));
        }
        i += 1;
    }
    PlanMaps { ids, urls, sources }
}

/// The sources of every repository without one of them.
fn without_source(sources: TextMap<StringSet>, source: &str) -> (after: TextMap<StringSet>)
    ensures
        set_map(after@) == set_map(sources@).map_values(
            |set: Set<Seq<char>>| set.remove(source@),
        ),
{
    let ghost models = set_map(sources@);
    let ghost wanted = models.map_values(|set: Set<Seq<char>>| set.remove(source@));
    let ghost names = sources.names();
    let ghost start = sources@;
    let (keys, sets) = sources.into_parts();
    let ghost all = sets@;
    let mut after: TextMap<StringSet> = TextMap::new();
    let mut i: usize = 0;
    for set in it: sets
        invariant
            it.seq() == all,
            i == it.index(),
            all.len() == keys@.len(),
            texts(keys@) == names,
            names.to_set() == start.dom(),
            models == set_map(start),
            wanted == models.map_values(|set: Set<Seq<char>>| set.remove(source@)),
            forall|j: int| 0 <= j < all.len() ==> #[trigger] all[j] == start[names[j]],
            forall|x: Seq<char>| #[trigger]
                after@.contains_key(x) <==> exists|j: int| 0 <= j < i && #[trigger] names[j] == x,
            forall|x: Seq<char>| #[trigger] after@.contains_key(x) ==> after@[x]@ == wanted[x],
    {
        let ghost earlier = after@;
        let mut set = set;
        proof {
            assert(i < keys.len());
            assert(names.contains(names[i as int]));
            assert(start.dom().contains(names[i as int]));
            assert(models[names[i as int]] == set@);
        }
        set.remove(source);
        after.insert(keys[i].clone(), set);
        proof {
            assert forall|x: Seq<char>| #[trigger] after@.contains_key(x) <==> exists|j: int|
                0 <= j < i + 1 && #[trigger] names[j] == x by {
                if after@.contains_key(x) {
                    if earlier.contains_key(x) {
                        let j = choose|j: int| 0 <= j < i && #[trigger] names[j] == x;
                        assert(names[j] == x);
                    } else {
                        assert(names[i as int] == x);
                    }
                }
            }
        }
        i += 1;
    }
    proof {
        assert forall|x: Seq<char>| after@.contains_key(x) == start.contains_key(x) by {
            if start.contains_key(x) {
                assert(names.to_set().contains(x));
                let j = names.index_of(x);
                assert(names[j] == x);
            }
            if after@.contains_key(x) {
                let j = choose|j: int| 0 <= j < i && #[trigger] names[j] == x;
                assert(names.contains(names[j]));
                assert(names.to_set().contains(x));
            }
        }
        assert(set_map(after@) =~= wanted);
    }
    after
}

/// Takes one more repository that a source lists into the plan.
fn plan_one(plan: PlanMaps, source: &str, spec: &RepoSpec) -> (after: Result<PlanMaps>)
    ensures
        match after {
            Ok(after) => plan_spec(plan@, source@, spec@) == Ok::<Plan, ErrorModel>(after@),
            Err(error) => plan_spec(plan@, source@, spec@) == Err::<Plan, ErrorModel>(error@),
        },
{
    let ghost start = plan@;
    match validate_repo_name(spec.id.as_str()) {
        Ok(_) => {},
        Err(error) => return Err(error),
    }
    let mut ids = plan.ids;
    let mut urls = plan.urls;
    let mut sources = plan.sources;
    let known = match ids.get(spec.canonical_url.as_str()) {
        Some(id) => Some(id.clone()),
        None => None,
    };
    let id = match known {
        Some(id) => id,
        None => {
            if let Some(url) = urls.get(spec.id.as_str()) {
                return Err(
                    Error::Config(
                        cat2(
                            cat5(
                                "repository id ",
                                debug_quote(spec.id.as_str()).as_str(),
                                " refers to both ",
                                debug_quote(url.as_str()).as_str(),
                                " and ",
                            ).as_str(),
                            debug_quote(spec.canonical_url.as_str()).as_str(),
                        ),
                    ),
                );
            }
            let ghost before_ids = ids@;
            let ghost before_urls = urls@;
            ids.insert(spec.canonical_url.clone(), spec.id.clone());
            urls.insert(spec.id.clone(), spec.canonical_url.clone());
            proof {
                assert(text_map(ids@) =~= text_map(before_ids).insert(
                    spec@.canonical_url,
                    spec@.id,
                ));
                assert(text_map(urls@) =~= text_map(before_urls).insert(
                    spec@.id,
                    spec@.canonical_url,
                ));
            }
            spec.id.clone()
        },
    };
    let ghost before_sources = sources@;
    let mut set = match sources.remove(id.as_str()) {
        Some(set) => set,
        None => StringSet::new(),
    };
    set.insert(source.to_owned());
    let ghost name = id@;
    sources.insert(id, set);
    proof {
        assert(set_map(sources@) =~= set_map(before_sources).insert(
            name,
            planned_sources(start, name).insert(source@),
        ));
    }
    Ok(PlanMaps { ids, urls, sources })
}

/// A problem among the first repositories stays the outcome.
proof fn lemma_plan_specs_error(
    plan: Plan,
    source: Seq<char>,
    found: Seq<SpecModel>,
    count: int,
    total: int,
)
    requires
        0 <= count <= total,
        plan_specs(plan, source, found, count) is Err,
    ensures
        plan_specs(plan, source, found, total) == plan_specs(plan, source, found, count),
    decreases total - count,
{
    if count < total {
        lemma_plan_specs_error(plan, source, found, count, total - 1);
    }
}

/// A problem among the first sources stays the outcome.
proof fn lemma_plan_all_error(plan: Plan, list: Seq<ListingModel>, count: int, total: int)
    requires
        0 <= count <= total,
        plan_all(plan, list, count) is Err,
    ensures
        plan_all(plan, list, total) == plan_all(plan, list, count),
    decreases total - count,
{
    if count < total {
        lemma_plan_all_error(plan, list, count, total - 1);
    }
}

/// The plan after some sources have listed their repositories.
fn plan_listings(plan: PlanMaps, list: &Vec<Listing>) -> (after: Result<PlanMaps>)
    ensures
        match after {
            Ok(after) => plan_all(plan@, listings(list@), list@.len() as int) == Ok::<
                Plan,
                ErrorModel,
            >(after@),
            Err(error) => plan_all(plan@, listings(list@), list@.len() as int) == Err::<
                Plan,
                ErrorModel,
            >(error@),
        },
{
    let ghost start = plan@;
    let ghost all = listings(list@);
    let mut maps = plan;
    let mut i: usize = 0;
    while i < list.len()
        invariant
            i <= list@.len(),
            all == listings(list@),
            start == plan@,
            plan_all(start, all, i as int) == Ok::<Plan, ErrorModel>(maps@),
        decreases list@.len() - i,
    {
        let listing = &list[i];
        let ghost source = listing.source@;
        let ghost found = specs(listing.specs@);
        let ghost earlier = maps@;
        let PlanMaps { ids, urls, sources } = maps;
        let sources = without_source(sources, listing.source.as_str());
        maps = PlanMaps { ids, urls, sources };
        let ghost without = maps@;
        proof {
            assert(all[i as int] == listing@);
            assert(without == plan_without(earlier, source));
        }
        let mut k: usize = 0;
        while k < listing.specs.len()
            invariant
                k <= listing.specs@.len(),
                i < list@.len(),
                start == plan@,
                all == listings(list@),
                all[i as int] == listing@,
                source == listing.source@,
                found == specs(listing.specs@),
                plan_all(start, all, i as int) == Ok::<Plan, ErrorModel>(earlier),
                without == plan_without(earlier, source),
                plan_specs(without, source, found, k as int) == Ok::<Plan, ErrorModel>(maps@),
            decreases listing.specs@.len() - k,
        {
            proof {
                assert(found[k as int] == listing.specs@[k as int]@);
            }
            match plan_one(maps, listing.source.as_str(), &listing.specs[k]) {
                Ok(after) => {
                    maps = after;
                },
                Err(error) => {
                    proof {
                        lemma_plan_specs_error(
                            without,
                            source,
                            found,
                            k + 1,
                            found.len() as int,
                        );
                        lemma_plan_all_error(start, all, i + 1, all.len() as int);
                    }
                    return Err(error);
                },
            }
            k += 1;
        }
        i += 1;
    }
    Ok(maps)
}

/// The repositories that some source lists in a plan.
fn plan_active(plan: &PlanMaps) -> (ids: StringSet)
    ensures
        ids@ == planned_active(plan@),
{
    let ghost models = set_map(plan.sources@);
    let count = plan.sources.len();
    let ghost names = plan.sources.names();
    let mut ids = StringSet::new();
    let mut i: usize = 0;
    while i < count
        invariant
            i <= count,
            count == names.len(),
            names == plan.sources.names(),
            names.to_set() == plan.sources@.dom(),
            models == set_map(plan.sources@),
            forall|x: Seq<char>| #[trigger]
                ids@.contains(x) <==> planned_active(plan@).contains(x) && exists|j: int|
                    0 <= j < i && #[trigger] names[j] == x,
        decreases count - i,
    {
        let ghost earlier = ids@;
        let set = plan.sources.value_at(i);
        let empty = set.is_empty();
        if !empty {
            ids.insert(plan.sources.name_at(i).clone());
        }
        proof {
            let name = names[i as int];
            assert(models.contains_key(name) && models[name] == set@);
            assert(planned_active(plan@).contains(name) == !empty) by {
                if !empty {
                    if forall|source: Seq<char>| !(#[trigger] set@.contains(source)) {
                        assert(set@ =~= Set::empty());
                    }
                }
            }
            assert forall|x: Seq<char>| #[trigger]
                ids@.contains(x) <==> planned_active(plan@).contains(x) && exists|j: int|
                    0 <= j < i + 1 && #[trigger] names[j] == x by {
                if ids@.contains(x) {
                    if earlier.contains(x) {
                        let j = choose|j: int| 0 <= j < i && #[trigger] names[j] == x;
                        assert(names[j] == x);
                    } else {
                        assert(names[i as int] == x);
                    }
                }
            }
        }
        i += 1;
    }
    proof {
        assert forall|x: Seq<char>| ids@.contains(x) == planned_active(plan@).contains(x) by {
            if planned_active(plan@).contains(x) {
                assert(names.to_set().contains(x));
                let j = names.index_of(x);
                assert(names[j] == x);
            }
        }
        assert(ids@ =~= planned_active(plan@));
    }
    ids
}

/// The active repositories among some records.
fn active_set(current: &Vec<RepoRecord>) -> (ids: StringSet)
    ensures
        ids@ == active_ids(records(current@)),
{
    let ghost all = records(current@);
    let mut ids = StringSet::new();
    let mut i: usize = 0;
    while i < current.len()
        invariant
            i <= current@.len(),
            all == records(current@),
            forall|x: Seq<char>| #[trigger]
                ids@.contains(x) <==> exists|j: int|
                    0 <= j < i && (#[trigger] all[j]).id == x && all[j].active,
        decreases current@.len() - i,
    {
        let ghost earlier = ids@;
        if current[i].active {
            ids.insert(current[i].id.clone());
        }
        proof {
            assert(all[i as int] == current@[i as int]@);
            assert forall|x: Seq<char>| #[trigger] ids@.contains(x) <==> exists|j: int|
                0 <= j < i + 1 && (#[trigger] all[j]).id == x && all[j].active by {
                if ids@.contains(x) {
                    if earlier.contains(x) {
                        let j = choose|j: int|
                            0 <= j < i && (#[trigger] all[j]).id == x && all[j].active;
                        assert(all[j].id == x);
                    } else {
                        assert(all[i as int].id == x);
                    }
                }
            }
        }
        i += 1;
    }
    proof {
        assert(ids@ =~= active_ids(all));
    }
    ids
}

/// How the active repositories change.
fn compare_active(current: &StringSet, desired: &StringSet) -> (preview: SyncPreview)
    ensures
        previews(preview, current@, desired@),
{
    let mut both = current.clone();
    both.extend(desired);
    let list = both.to_list();
    let ghost all = texts(list@);
    let ghost mut places: Seq<int> = Seq::empty();
    let ghost mut common: Set<Seq<char>> = Set::empty();
    let mut changes: Vec<RepositoryChange> = Vec::new();
    let mut unchanged: usize = 0;
    let mut i: usize = 0;
    proof {
        lemma_increasing_distinct(all);
        assert(all.take(0).to_set() =~= Set::empty());
        assert(common =~= current@.intersect(desired@).intersect(all.take(0).to_set()));
    }
    while i < list.len()
        invariant
            i <= list@.len(),
            all == texts(list@),
            increasing(all),
            all.no_duplicates(),
            all.to_set() == current@.union(desired@),
            unchanged <= i,
            common == current@.intersect(desired@).intersect(all.take(i as int).to_set()),
            common.finite(),
            unchanged == common.len(),
            places.len() == changes@.len(),
            forall|k: int|
                0 <= k < places.len() ==> 0 <= #[trigger] places[k] < i && changes@[k].id@
                    == all[places[k]],
            forall|k: int, l: int| 0 <= k < l < places.len() ==> places[k] < places[l],
            forall|k: int|
                0 <= k < changes@.len() ==> {
                    let id = (#[trigger] changes@[k]).id@;
                    &&& current@.contains(id) != desired@.contains(id)
                    &&& changes@[k].kind == (if desired@.contains(id) {
                        RepositoryChangeKind::Activate
                    } else {
                        RepositoryChangeKind::Deactivate
                    })
                },
            forall|j: int|
                0 <= j < i && current@.contains(all[j]) != desired@.contains(#[trigger] all[j])
                    ==> exists|k: int| 0 <= k < places.len() && #[trigger] places[k] == j,
        decreases list@.len() - i,
    {
        let ghost earlier_places = places;
        let ghost id = all[i as int];
        let now = current.contains(list[i].as_str());
        let soon = desired.contains(list[i].as_str());
        proof {
            assert(all.contains(id));
            assert(all.to_set().contains(id));
            assert(all.take(i + 1) =~= all.take(i as int).push(id));
            all.take(i as int).lemma_push_to_set_commute(id);
            assert(!all.take(i as int).to_set().contains(id)) by {
                if all.take(i as int).contains(id) {
                    let j = all.take(i as int).index_of(id);
                    assert(all[j] == id);
                }
            }
        }
        if now && soon {
            unchanged += 1;
            proof {
                common = common.insert(id);
            }
        } else {
            let kind = if soon {
                RepositoryChangeKind::Activate
            } else {
                RepositoryChangeKind::Deactivate
            };
            changes.push(RepositoryChange { id: list[i].clone(), kind });
            proof {
                places = places.push(i as int);
            }
        }
        proof {
            assert(common =~= current@.intersect(desired@).intersect(
                all.take(i + 1).to_set(),
            ));
            assert forall|j: int|
                0 <= j < i + 1 && current@.contains(all[j]) != desired@.contains(
                    #[trigger] all[j],
                ) implies exists|k: int| 0 <= k < places.len() && #[trigger] places[k] == j by {
                if j < i {
                    let k = choose|k: int|
                        0 <= k < earlier_places.len() && #[trigger] earlier_places[k] == j;
                    assert(places[k] == j);
                } else {
                    assert(places[places.len() - 1] == j);
                }
            }
        }
        i += 1;
    }
    let preview = SyncPreview { changes, unchanged };
    proof {
        let ids = change_ids(preview.changes@);
        let wanted = current@.difference(desired@).union(desired@.difference(current@));
        assert(all.take(all.len() as int) =~= all);
        assert(common =~= current@.intersect(desired@));
        assert forall|k: int, l: int| 0 <= k < l < ids.len() implies before(ids[k], ids[l]) by {
            assert(places[k] < places[l]);
            assert(ids[k] == all[places[k]] && ids[l] == all[places[l]]);
        }
        assert forall|x: Seq<char>| ids.to_set().contains(x) == wanted.contains(x) by {
            if ids.contains(x) {
                let k = ids.index_of(x);
                assert(preview.changes@[k].id@ == x);
            }
            if wanted.contains(x) {
                assert(all.to_set().contains(x));
                let j = all.index_of(x);
                assert(all[j] == x);
                let k = choose|k: int| 0 <= k < places.len() && #[trigger] places[k] == j;
                assert(ids[k] == x);
            }
        }
        assert(ids.to_set() =~= wanted);
    }
    preview
}

/// How a synchronization would change which repositories are active. `current`
/// is the inventory, and `found` what the sources list.
pub fn preview_reconciliation(current: &Vec<RepoRecord>, found: &Vec<Listing>) -> (preview: Result<
    SyncPreview,
>)
    ensures
        match plan_all(
            plan_of(records(current@), current@.len() as int),
            listings(found@),
            found@.len() as int,
        ) {
            Err(problem) => preview matches Err(error) && error@ == problem,
            Ok(plan) => preview matches Ok(preview) && previews(
                preview,
                active_ids(records(current@)),
                planned_active(plan),
            ),
        },
{
    let active = active_set(current);
    let plan = match plan_listings(plan_records(current), found) {
        Ok(plan) => plan,
        Err(error) => return Err(error),
    };
    Ok(compare_active(&active, &plan_active(&plan)))
}

/// The inventory after the first of some sources have listed their
/// repositories one after the other, and the first problem, if there is one:
/// what came before it stays.
pub open spec fn reconciled_all(
    repos: Inventory,
    list: Seq<ListingModel>,
    repos_dir: Seq<char>,
    count: int,
) -> (Inventory, Option<ErrorModel>)
    decreases count,
{
    if count <= 0 {
        (repos, None)
    } else {
        let (earlier, problem) = reconciled_all(repos, list, repos_dir, count - 1);
        if problem is Some {
            (earlier, problem)
        } else {
            match reconciled(earlier, list[count - 1].0, list[count - 1].1, repos_dir) {
                Ok(after) => (after, None),
                Err(problem) => (earlier, Some(problem)),
            }
        }
    }
}

/// The identifiers under which the inventory knows what some sources list.
pub open spec fn wanted_ids(repos: Inventory, list: Seq<ListingModel>) -> Set<Seq<char>> {
    Set::new(
        |id: Seq<char>|
            exists|i: int|
                0 <= i < list.len() && found_ids(repos, (#[trigger] list[i]).1).contains(id),
    )
}

/// A problem among the first sources stays the outcome, and nothing changes
/// after it.
proof fn lemma_reconciled_all_problem(
    repos: Inventory,
    list: Seq<ListingModel>,
    repos_dir: Seq<char>,
    count: int,
    total: int,
)
    requires
        0 <= count <= total,
        reconciled_all(repos, list, repos_dir, count).1 is Some,
    ensures
        reconciled_all(repos, list, repos_dir, total) == reconciled_all(
            repos,
            list,
            repos_dir,
            count,
        ),
    decreases total - count,
{
    if count < total {
        lemma_reconciled_all_problem(repos, list, repos_dir, count, total - 1);
    }
}

/// What was found stays known under the same identifiers.
proof fn lemma_found_ids_stay(
    repos: Inventory,
    source: Seq<char>,
    found: Seq<SpecModel>,
    repos_dir: Seq<char>,
    earlier: Seq<SpecModel>,
)
    requires
        consistent(repos),
        reconciled(repos, source, found, repos_dir) is Ok,
        consistent(reconciled(repos, source, found, repos_dir)->Ok_0),
        forall|i: int|
            0 <= i < earlier.len() ==> id_by_url(
                repos,
                (#[trigger] earlier[i]).canonical_url,
            ) is Some,
    ensures
        found_ids(reconciled(repos, source, found, repos_dir)->Ok_0, earlier) == found_ids(
            repos,
            earlier,
        ),
        forall|i: int|
            0 <= i < earlier.len() ==> id_by_url(
                reconciled(repos, source, found, repos_dir)->Ok_0,
                (#[trigger] earlier[i]).canonical_url,
            ) is Some,
{
    law_reconciling_destroys_nothing(repos, source, found, repos_dir);
    let after = reconciled(repos, source, found, repos_dir)->Ok_0;
    assert forall|i: int| 0 <= i < earlier.len() implies id_by_url(
        after,
        (#[trigger] earlier[i]).canonical_url,
    ) is Some by {
        let id = id_by_url(repos, earlier[i].canonical_url)->Some_0;
        assert(repos.contains_key(id));
        assert(after.contains_key(id));
    }
    assert forall|x: Seq<char>| found_ids(after, earlier).contains(x) == found_ids(
        repos,
        earlier,
    ).contains(x) by {
        if found_ids(repos, earlier).contains(x) {
            assert(repos.contains_key(x));
            let i = choose|i: int|
                0 <= i < earlier.len() && #[trigger] earlier[i].canonical_url
                    == repos[x].canonical_url;
            assert(earlier[i].canonical_url == after[x].canonical_url);
        }
        if found_ids(after, earlier).contains(x) {
            let i = choose|i: int|
                0 <= i < earlier.len() && #[trigger] earlier[i].canonical_url
                    == after[x].canonical_url;
            let id = id_by_url(repos, earlier[i].canonical_url)->Some_0;
            assert(repos.contains_key(id));
            assert(after.contains_key(id));
            assert(id == x);
            assert(earlier[i].canonical_url == repos[x].canonical_url);
        }
    }
    assert(found_ids(after, earlier) =~= found_ids(repos, earlier));
}

/// The records of a list whose identifiers belong to a set, in their order.
fn pick_records(list: Vec<RepoRecord>, wanted: &StringSet) -> (picked: Vec<RepoRecord>)
    ensures
        records(picked@) == records(list@).filter(
            |record: RecordModel| wanted@.contains(record.id),
        ),
{
    let ghost all = records(list@);
    let ghost keep = |record: RecordModel| wanted@.contains(record.id);
    let mut picked: Vec<RepoRecord> = Vec::new();
    proof {
        reveal(Seq::filter);
        assert(records(picked@) =~= all.take(0).filter(keep));
    }
    for record in it: list
        invariant
            it.seq() == list@,
            all == records(list@),
            keep == (|record: RecordModel| wanted@.contains(record.id)),
            records(picked@) == all.take(it.index() as int).filter(keep),
    {
        let ghost at = it.index() as int;
        let ghost earlier = picked@;
        proof {
            reveal(Seq::filter);
            assert(all.take(at + 1).drop_last() =~= all.take(at));
            assert(all.take(at + 1).last() == record@);
        }
        if wanted.contains(record.id.as_str()) {
            picked.push(record);
            proof {
                assert(records(picked@) =~= records(earlier).push(record@));
            }
        }
    }
    proof {
        assert(all.take(all.len() as int) =~= all);
    }
    picked
}

/// Whether the inventory cannot be read once the last of the first sources has
/// listed its repositories, if it lists any.
pub open spec fn unreadable_after(
    repos: Inventory,
    list: Seq<ListingModel>,
    repos_dir: Seq<char>,
    count: int,
) -> bool {
    let (after, problem) = reconciled_all(repos, list, repos_dir, count);
    problem is None && list[count - 1].1.len() > 0 && !readable(after, true)
}

/// After how many of the first sources it is noticed that the inventory cannot
/// be read.
pub open spec fn reading_stop(
    repos: Inventory,
    list: Seq<ListingModel>,
    repos_dir: Seq<char>,
    count: int,
) -> Option<int>
    decreases count,
{
    if count <= 0 {
        None
    } else {
        match reading_stop(repos, list, repos_dir, count - 1) {
            Some(stop) => Some(stop),
            None => if unreadable_after(repos, list, repos_dir, count) {
                Some(count)
            } else {
                None
            },
        }
    }
}

/// Where the reading stops among the first sources, it stops.
proof fn lemma_reading_stop(
    repos: Inventory,
    list: Seq<ListingModel>,
    repos_dir: Seq<char>,
    count: int,
    total: int,
)
    requires
        0 <= count <= total,
        reading_stop(repos, list, repos_dir, count) is Some || reconciled_all(
            repos,
            list,
            repos_dir,
            count,
        ).1 is Some,
    ensures
        reading_stop(repos, list, repos_dir, total) == reading_stop(repos, list, repos_dir, count),
    decreases total - count,
{
    if count < total {
        lemma_reading_stop(repos, list, repos_dir, count, total - 1);
        if reconciled_all(repos, list, repos_dir, count).1 is Some {
            lemma_reconciled_all_problem(repos, list, repos_dir, count, total);
        }
    }
}

/// Whether what sources list was taken into an inventory, and a list holds the
/// active repositories that a source lists; a problem stops it, and what came
/// before stays. Something that cannot be read is such a problem: after a source
/// that lists anything all of the inventory is read, and at the end what is
/// active.
pub open spec fn reconciliation(
    before: Inventory,
    found: Seq<ListingModel>,
    repos_dir: Seq<char>,
    after: Inventory,
    list: Result<Vec<RepoRecord>>,
) -> bool {
    match reading_stop(before, found, repos_dir, found.len() as int) {
        Some(stop) => {
            &&& after == reconciled_all(before, found, repos_dir, stop).0
            &&& list matches Err(error) && listing_problem(after, true, error@)
        },
        None => {
            let reached = reconciled_all(before, found, repos_dir, found.len() as int);
            &&& after == reached.0
            &&& match reached.1 {
                Some(problem) => list matches Err(error) && error@ == problem,
                None => match list {
                    Ok(list) => {
                        &&& readable(after, false)
                        &&& lists(
                            after,
                            wanted_ids(after, found).intersect(listed_ids(after, false)),
                            records(list@),
                        )
                    },
                    Err(error) => listing_problem(after, false, error@),
                },
            }
        },
    }
}

/// Takes what the sources list into the inventory, one source after the other,
/// and lists the repositories that are to be synchronized: the active ones that
/// a source lists. It stops with the first source that is not acceptable, or
/// after which the inventory cannot be read.
pub fn reconcile_repositories(
    state: &mut State,
    repos_dir: &str,
    found: &Vec<Listing>,
) -> (list: Result<Vec<RepoRecord>>)
    ensures
        reconciliation(old(state)@, listings(found@), repos_dir@, final(state)@, list),
{
    let ghost start = state@;
    let ghost all = listings(found@);
    let mut wanted = StringSet::new();
    let mut i: usize = 0;
    proof {
        assert(wanted@ =~= wanted_ids(start, all.take(0)));
    }
    while i < found.len()
        invariant
            i <= found@.len(),
            all == listings(found@),
            start == old(state)@,
            reconciled_all(start, all, repos_dir@, i as int) == (state@, None::<ErrorModel>),
            reading_stop(start, all, repos_dir@, i as int) is None,
            forall|j: int, k: int|
                0 <= j < i && 0 <= k < all[j].1.len() ==> id_by_url(
                    state@,
                    (#[trigger] all[j].1[k]).canonical_url,
                ) is Some,
            wanted@ == wanted_ids(state@, all.take(i as int)),
        decreases found@.len() - i,
    {
        let ghost earlier = state@;
        let ghost earlier_wanted = wanted@;
        let listing = &found[i];
        proof {
            assert(all[i as int] == listing@);
        }
        match state.reconcile_source(listing.source.as_str(), &listing.specs, repos_dir) {
            Ok(ids) => {
                wanted.extend(&ids);
                proof {
                    let after = state@;
                    let (source, specs) = all[i as int];
                    assert forall|j: int| 0 <= j < i implies found_ids(
                        after,
                        (#[trigger] all[j]).1,
                    ) == found_ids(earlier, all[j].1) by {
                        lemma_found_ids_stay(earlier, source, specs, repos_dir@, all[j].1);
                    }
                    assert forall|j: int, k: int|
                        0 <= j < i + 1 && 0 <= k < all[j].1.len() implies id_by_url(
                        after,
                        (#[trigger] all[j].1[k]).canonical_url,
                    ) is Some by {
                        if j < i {
                            lemma_found_ids_stay(earlier, source, specs, repos_dir@, all[j].1);
                        } else {
                            crate::inventory::law_listed_repositories_are_active(
                                earlier,
                                source,
                                specs,
                                repos_dir@,
                                k,
                            );
                        }
                    }
                    let fewer = all.take(i as int);
                    let more = all.take(i + 1);
                    assert forall|x: Seq<char>| wanted@.contains(x) == wanted_ids(
                        after,
                        more,
                    ).contains(x) by {
                        if earlier_wanted.contains(x) {
                            let j = choose|j: int|
                                0 <= j < fewer.len() && found_ids(
                                    earlier,
                                    (#[trigger] fewer[j]).1,
                                ).contains(x);
                            assert(fewer[j] == all[j] && more[j] == all[j]);
                            assert(found_ids(after, more[j].1).contains(x));
                        } else if ids@.contains(x) {
                            assert(more[i as int] == all[i as int]);
                            assert(found_ids(after, more[i as int].1).contains(x));
                        }
                        if wanted_ids(after, more).contains(x) {
                            let j = choose|j: int|
                                0 <= j < more.len() && found_ids(
                                    after,
                                    (#[trigger] more[j]).1,
                                ).contains(x);
                            assert(more[j] == all[j]);
                            if j < i {
                                assert(fewer[j] == all[j]);
                                assert(found_ids(earlier, fewer[j].1).contains(x));
                            }
                        }
                    }
                    assert(wanted@ =~= wanted_ids(after, more));
                }
            },
            Err(error) => {
                proof {
                    let total = all.len() as int;
                    if reconciled_all(start, all, repos_dir@, i + 1).1 is Some {
                        lemma_reconciled_all_problem(start, all, repos_dir@, i + 1, total);
                    } else {
                        lemma_problem_is_unreadable(state@, true, error@);
                    }
                    lemma_reading_stop(start, all, repos_dir@, i + 1, total);
                }
                return Err(error);
            },
        }
        i += 1;
    }
    proof {
        assert(all.take(all.len() as int) =~= all);
    }
    let active = match state.list(false) {
        Ok(active) => active,
        Err(error) => return Err(error),
    };
    proof {
        lemma_lists_some(
            state@,
            listed_ids(state@, false),
            records(active@),
            |record: RecordModel| wanted@.contains(record.id),
            wanted@.intersect(listed_ids(state@, false)),
        );
    }
    Ok(pick_records(active, &wanted))
}

}
