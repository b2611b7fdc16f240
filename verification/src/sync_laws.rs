//! What holds of synchronizations as a whole.

use vstd::prelude::*;

use crate::config::valid_repo_name;
use crate::error::ErrorModel;
use crate::inventory::{
    Inventory, active_sources, bad_status, bad_tags, consistent, discovered, discovered_all,
    has_source, id_by_url, known_sources, law_reconciling_destroys_nothing, lemma_discovered,
    lemma_discovered_keeps, lemma_discovered_present, lemma_discovered_untouched, lemma_id_by_url,
    lemma_links_of_new, lemma_reconciled_consistent, lemma_status_of, lemma_withdrawn_consistent,
    listed, listed_ids, lists, readable, reads_back, reconciled, record_ids, record_of,
    repository_id, settled, truthful, withdrawn,
};
use crate::model::{RecordModel, RepoStatus, SpecModel};
use crate::reconcile::{
    Plan, active_ids, plan_all, plan_of, plan_spec, plan_specs, plan_without, planned_active,
    reading_stop, reconciled_all,
};
use crate::sync::ListingModel;
use crate::text::{before, lemma_before_total};

verus! {

/// Whether a plan says of an inventory what it needs to know.
spec fn plan_fits(plan: Plan, repos: Inventory) -> bool {
    &&& plan.urls.dom() == repos.dom()
    &&& plan.sources.dom() == repos.dom()
    &&& forall|id: Seq<char>| #[trigger]
        repos.contains_key(id) ==> {
            &&& plan.urls[id] == repos[id].canonical_url
            &&& plan.sources[id] == active_sources(repos[id].links)
            &&& plan.ids.contains_key(repos[id].canonical_url)
            &&& plan.ids[repos[id].canonical_url] == id
        }
    &&& forall|url: Seq<char>| #[trigger]
        plan.ids.contains_key(url) ==> repos.contains_key(plan.ids[url])
            && repos[plan.ids[url]].canonical_url == url
}

/// The plan of the first records fits what they are the records of.
proof fn lemma_plan_of(repos: Inventory, current: Seq<RecordModel>, count: int)
    requires
        consistent(repos),
        lists(repos, repos.dom(), current),
        0 <= count <= current.len(),
    ensures
        ({
            let plan = plan_of(current, count);
            &&& plan.urls.dom() == record_ids(current.take(count)).to_set()
            &&& plan.sources.dom() == record_ids(current.take(count)).to_set()
            &&& forall|i: int|
                0 <= i < count ==> {
                    &&& plan.urls[(#[trigger] current[i]).id] == current[i].canonical_url
                    &&& plan.sources[current[i].id] == current[i].sources
                    &&& plan.ids.contains_key(current[i].canonical_url)
                    &&& plan.ids[current[i].canonical_url] == current[i].id
                }
            &&& forall|url: Seq<char>| #[trigger]
                plan.ids.contains_key(url) ==> exists|i: int|
                    0 <= i < count && (#[trigger] current[i]).canonical_url == url
                        && current[i].id == plan.ids[url]
        }),
    decreases count,
{
    let plan = plan_of(current, count);
    if count == 0 {
        assert(record_ids(current.take(0)).to_set() =~= Set::empty());
        assert(plan.urls.dom() =~= Set::empty());
        assert(plan.sources.dom() =~= Set::empty());
    } else {
        lemma_plan_of(repos, current, count - 1);
        let earlier = plan_of(current, count - 1);
        let repo = current[count - 1];
        let fewer = record_ids(current.take(count - 1));
        let more = record_ids(current.take(count));
        assert(more =~= fewer.push(repo.id));
        fewer.lemma_push_to_set_commute(repo.id);
        assert(plan.urls.dom() =~= more.to_set());
        assert(plan.sources.dom() =~= more.to_set());
        let ids = record_ids(current);
        assert forall|i: int| 0 <= i < count - 1 implies (#[trigger] current[i]).id != repo.id
            && current[i].canonical_url != repo.canonical_url by {
            assert(before(ids[i], ids[count - 1]));
            lemma_before_total(ids[i], ids[count - 1]);
            assert(ids.contains(ids[i]) && ids.contains(ids[count - 1]));
            assert(repos.dom().contains(ids[i]) && repos.dom().contains(ids[count - 1]));
            assert(repos.contains_key(current[i].id) && repos.contains_key(repo.id));
        }
        assert forall|url: Seq<char>| #[trigger] plan.ids.contains_key(url) implies exists|i: int|
            0 <= i < count && (#[trigger] current[i]).canonical_url == url && current[i].id
                == plan.ids[url] by {
            if url == repo.canonical_url {
                assert(current[count - 1].canonical_url == url);
            } else {
                assert(earlier.ids.contains_key(url));
                let i = choose|i: int|
                    0 <= i < count - 1 && (#[trigger] current[i]).canonical_url == url
                        && current[i].id == earlier.ids[url];
                assert(current[i].canonical_url == url);
            }
        }
    }
}

/// The plan of a listing of the whole inventory fits it.
proof fn lemma_plan_fits(repos: Inventory, current: Seq<RecordModel>)
    requires
        consistent(repos),
        lists(repos, repos.dom(), current),
    ensures
        plan_fits(plan_of(current, current.len() as int), repos),
{
    lemma_plan_of(repos, current, current.len() as int);
    let plan = plan_of(current, current.len() as int);
    let ids = record_ids(current);
    assert(current.take(current.len() as int) =~= current);
    assert forall|id: Seq<char>| #[trigger] repos.contains_key(id) implies {
        &&& plan.urls[id] == repos[id].canonical_url
        &&& plan.sources[id] == active_sources(repos[id].links)
        &&& plan.ids.contains_key(repos[id].canonical_url)
        &&& plan.ids[repos[id].canonical_url] == id
    } by {
        assert(ids.to_set().contains(id));
        let i = ids.index_of(id);
        assert(current[i].id == id);
        assert(current[i] == record_of(id, repos[id]));
    }
    assert forall|url: Seq<char>| #[trigger] plan.ids.contains_key(url) implies repos.contains_key(
        plan.ids[url],
    ) && repos[plan.ids[url]].canonical_url == url by {
        let i = choose|i: int|
            0 <= i < current.len() && (#[trigger] current[i]).canonical_url == url && current[i].id
                == plan.ids[url];
        assert(ids[i] == current[i].id);
        assert(ids.contains(ids[i]));
        assert(repos.dom().contains(ids[i]));
        assert(current[i] == record_of(current[i].id, repos[current[i].id]));
    }
}

/// A plan and the inventory that it fits lose a source in the same way.
proof fn lemma_plan_without(plan: Plan, repos: Inventory, source: Seq<char>)
    requires
        plan_fits(plan, repos),
    ensures
        plan_fits(plan_without(plan, source), withdrawn(repos, source)),
{
    let after = withdrawn(repos, source);
    let less = plan_without(plan, source);
    assert(less.urls.dom() =~= after.dom());
    assert(less.sources.dom() =~= after.dom());
    assert forall|id: Seq<char>| #[trigger] after.contains_key(id) implies less.sources[id]
        == active_sources(after[id].links) by {
        assert(repos.contains_key(id));
        assert(less.sources[id] =~= active_sources(after[id].links));
    }
}

/// A plan and the inventory that it fits gain a repository in the same way.
proof fn lemma_plan_spec(
    plan: Plan,
    repos: Inventory,
    source: Seq<char>,
    spec: SpecModel,
    repos_dir: Seq<char>,
)
    requires
        consistent(repos),
        plan_fits(plan, repos),
    ensures
        match discovered(repos, source, spec, repos_dir) {
            Ok(after) => {
                &&& consistent(after)
                &&& plan_spec(plan, source, spec) matches Ok(more)
                &&& plan_fits(more, after)
            },
            Err(ErrorModel::Sql(_)) => true,
            Err(problem) => plan_spec(plan, source, spec) == Err::<Plan, ErrorModel>(problem),
        },
{
    if valid_repo_name(spec.id) {
        let known = id_by_url(repos, spec.canonical_url);
        match known {
            Some(id) => {
                assert(repos.contains_key(id));
                assert(plan.ids[spec.canonical_url] == id);
            },
            None => {
                if plan.ids.contains_key(spec.canonical_url) {
                    assert(repos.contains_key(plan.ids[spec.canonical_url]));
                }
            },
        }
        if let Ok(after) = discovered(repos, source, spec, repos_dir) {
            let id = repository_id(repos, spec)->Ok_0;
            let more = plan_spec(plan, source, spec)->Ok_0;
            assert(more.urls.dom() =~= after.dom());
            assert(more.sources.dom() =~= after.dom());
            assert(more.sources[id] =~= active_sources(after[id].links));
            assert forall|other: Seq<char>| #[trigger] after.contains_key(other) implies {
                &&& more.urls[other] == after[other].canonical_url
                &&& more.sources[other] == active_sources(after[other].links)
                &&& more.ids.contains_key(after[other].canonical_url)
                &&& more.ids[after[other].canonical_url] == other
            } by {
                if other != id {
                    assert(repos.contains_key(other));
                }
            }
        }
    }
}

/// A plan still fits the inventory after a source has listed its first
/// repositories, and both report the same problem.
proof fn lemma_plan_specs(
    plan: Plan,
    repos: Inventory,
    source: Seq<char>,
    found: Seq<SpecModel>,
    repos_dir: Seq<char>,
    count: int,
)
    requires
        consistent(repos),
        plan_fits(plan, repos),
        0 <= count <= found.len(),
    ensures
        match discovered_all(repos, source, found, repos_dir, count) {
            Ok(after) => {
                &&& consistent(after)
                &&& plan_specs(plan, source, found, count) matches Ok(more)
                &&& plan_fits(more, after)
            },
            Err(ErrorModel::Sql(_)) => true,
            Err(problem) => plan_specs(plan, source, found, count) == Err::<Plan, ErrorModel>(
                problem,
            ),
        },
    decreases count,
{
    if count > 0 {
        lemma_plan_specs(plan, repos, source, found, repos_dir, count - 1);
        if let Ok(middle) = discovered_all(repos, source, found, repos_dir, count - 1) {
            let more = plan_specs(plan, source, found, count - 1)->Ok_0;
            lemma_plan_spec(more, middle, source, found[count - 1], repos_dir);
        }
    }
}

/// A plan still fits the inventory after the first of some sources were
/// reconciled, and both report the same problem.
proof fn lemma_plan_all(
    plan: Plan,
    repos: Inventory,
    list: Seq<ListingModel>,
    repos_dir: Seq<char>,
    count: int,
)
    requires
        consistent(repos),
        plan_fits(plan, repos),
        truthful(repos),
        0 <= count <= list.len(),
    ensures
        match reconciled_all(repos, list, repos_dir, count) {
            (after, None) => {
                &&& consistent(after)
                &&& truthful(after)
                &&& plan_all(plan, list, count) matches Ok(more)
                &&& plan_fits(more, after)
            },
            (_, Some(ErrorModel::Sql(_))) => true,
            (_, Some(problem)) => plan_all(plan, list, count) == Err::<Plan, ErrorModel>(problem),
        },
    decreases count,
{
    if count > 0 {
        lemma_plan_all(plan, repos, list, repos_dir, count - 1);
        let (middle, problem) = reconciled_all(repos, list, repos_dir, count - 1);
        if problem is None {
            let more = plan_all(plan, list, count - 1)->Ok_0;
            let (source, found) = list[count - 1];
            lemma_plan_without(more, middle, source);
            assert(consistent(withdrawn(middle, source)));
            lemma_plan_specs(
                plan_without(more, source),
                withdrawn(middle, source),
                source,
                found,
                repos_dir,
                found.len() as int,
            );
            let last = discovered_all(
                withdrawn(middle, source),
                source,
                found,
                repos_dir,
                found.len() as int,
            );
            if let Ok(last) = last {
                let final_plan = plan_all(plan, list, count)->Ok_0;
                assert(settled(last).dom() =~= last.dom());
                assert forall|id: Seq<char>| #[trigger] settled(last).contains_key(id) implies
                    last.contains_key(id) by {}
                assert(plan_fits(final_plan, settled(last)));
            }
        }
    }
}

/// A preview tells what a synchronization would do: the repositories that it
/// calls active afterwards are those that are active once the sources are
/// reconciled, and if their listings are not acceptable it reports the same
/// problem. Only that two working trees would take the same place, which the
/// database refuses, is not foreseen.
/// (That reconciling does not stop for something that cannot be read, where a
/// listing could be made, is [`law_readable_inventories_are_reconciled`].)
pub proof fn law_previews_predict(
    repos: Inventory,
    current: Seq<RecordModel>,
    list: Seq<ListingModel>,
    repos_dir: Seq<char>,
)
    requires
        consistent(repos),
        truthful(repos),
        lists(repos, repos.dom(), current),
    ensures
        active_ids(current) == listed_ids(repos, false),
        match reconciled_all(repos, list, repos_dir, list.len() as int) {
            (after, None) => {
                &&& plan_all(
                    plan_of(current, current.len() as int),
                    list,
                    list.len() as int,
                ) matches Ok(plan)
                &&& planned_active(plan) == listed_ids(after, false)
            },
            (_, Some(ErrorModel::Sql(_))) => true,
            (_, Some(problem)) => plan_all(
                plan_of(current, current.len() as int),
                list,
                list.len() as int,
            ) == Err::<Plan, ErrorModel>(problem),
        },
{
    let ids = record_ids(current);
    assert forall|id: Seq<char>| active_ids(current).contains(id) == listed_ids(
        repos,
        false,
    ).contains(id) by {
        if active_ids(current).contains(id) {
            let i = choose|i: int|
                0 <= i < current.len() && (#[trigger] current[i]).id == id && current[i].active;
            assert(ids[i] == id);
            assert(ids.contains(ids[i]));
            assert(repos.dom().contains(id));
            assert(current[i] == record_of(id, repos[id]));
        }
        if listed(repos, false, id) {
            assert(ids.to_set().contains(id));
            let i = ids.index_of(id);
            assert(current[i].id == id);
            assert(current[i] == record_of(id, repos[id]));
        }
    }
    assert(active_ids(current) =~= listed_ids(repos, false));
    let plan = plan_of(current, current.len() as int);
    lemma_plan_fits(repos, current);
    lemma_plan_all(plan, repos, list, repos_dir, list.len() as int);
    if let (after, None) = reconciled_all(repos, list, repos_dir, list.len() as int) {
        let last = plan_all(plan, list, list.len() as int)->Ok_0;
        assert forall|id: Seq<char>| planned_active(last).contains(id) == listed_ids(
            after,
            false,
        ).contains(id) by {
            if planned_active(last).contains(id) {
                assert(after.contains_key(id));
                let source = choose|source: Seq<char>| #[trigger]
                    last.sources[id].contains(source);
                assert(active_sources(after[id].links).contains(source));
                assert(after[id].links.contains_key(source) && after[id].links[source].active);
                assert(has_source(after[id].links));
            }
            if listed(after, false, id) {
                assert(has_source(after[id].links));
                let source = choose|source: Seq<char>| #[trigger]
                    after[id].links.contains_key(source) && after[id].links[source].active;
                assert(active_sources(after[id].links).contains(source));
                assert(last.sources[id].contains(source));
            }
        }
        assert(planned_active(last) =~= listed_ids(after, false));
    }
}

/// Whether what a source says stays the same from one inventory to another.
pub open spec fn source_kept(earlier: Inventory, later: Inventory, source: Seq<char>) -> bool {
    forall|id: Seq<char>| #[trigger]
        earlier.contains_key(id) ==> {
            &&& later.contains_key(id)
            &&& later[id].links.contains_key(source) == earlier[id].links.contains_key(source)
            &&& earlier[id].links.contains_key(source) ==> later[id].links[source]
                == earlier[id].links[source]
        }
}

/// Reconciling sources changes nothing of what another source says: a source
/// whose discovery failed keeps its repositories.
pub proof fn law_failed_sources_keep_their_repositories(
    repos: Inventory,
    list: Seq<ListingModel>,
    repos_dir: Seq<char>,
    count: int,
    source: Seq<char>,
)
    requires
        consistent(repos),
        0 <= count <= list.len(),
        forall|i: int| 0 <= i < count ==> (#[trigger] list[i]).0 != source,
    ensures
        consistent(reconciled_all(repos, list, repos_dir, count).0),
        source_kept(repos, reconciled_all(repos, list, repos_dir, count).0, source),
    decreases count,
{
    if count > 0 {
        law_failed_sources_keep_their_repositories(repos, list, repos_dir, count - 1, source);
        let (middle, problem) = reconciled_all(repos, list, repos_dir, count - 1);
        let (other, found) = list[count - 1];
        if problem is None && reconciled(middle, other, found, repos_dir) is Ok {
            let after = reconciled(middle, other, found, repos_dir)->Ok_0;
            law_reconciling_destroys_nothing(middle, other, found, repos_dir);
            lemma_reconciled_consistent(middle, other, found, repos_dir);
            assert forall|id: Seq<char>| #[trigger] repos.contains_key(id) implies {
                &&& after.contains_key(id)
                &&& after[id].links.contains_key(source) == repos[id].links.contains_key(source)
                &&& repos[id].links.contains_key(source) ==> after[id].links[source]
                    == repos[id].links[source]
            } by {
                assert(middle.contains_key(id));
                let kept = after[id].links.remove(other);
                assert(kept == middle[id].links.remove(other));
                assert(kept.contains_key(source) == after[id].links.contains_key(source));
                if kept.contains_key(source) {
                    assert(kept[source] == after[id].links[source]);
                }
            }
        }
    }
}

/// No repository is listed by a source after that source has listed nothing,
/// as one does that is not configured any more.
pub proof fn law_retired_sources_list_nothing(
    repos: Inventory,
    list: Seq<ListingModel>,
    repos_dir: Seq<char>,
    count: int,
    place: int,
)
    requires
        consistent(repos),
        0 <= place < count <= list.len(),
        list[place].1.len() == 0,
        forall|i: int| 0 <= i < count && i != place ==> (#[trigger] list[i]).0 != list[place].0,
        reconciled_all(repos, list, repos_dir, count).1 is None,
    ensures
        consistent(reconciled_all(repos, list, repos_dir, count).0),
        !known_sources(reconciled_all(repos, list, repos_dir, count).0).contains(list[place].0),
    decreases count,
{
    let source = list[place].0;
    let (middle, problem) = reconciled_all(repos, list, repos_dir, count - 1);
    let (other, found) = list[count - 1];
    let after = reconciled_all(repos, list, repos_dir, count).0;
    if place == count - 1 {
        law_failed_sources_keep_their_repositories(repos, list, repos_dir, count - 1, source);
        lemma_reconciled_consistent(middle, other, found, repos_dir);
        assert forall|id: Seq<char>| #[trigger] after.contains_key(id) implies !active_sources(
            after[id].links,
        ).contains(source) by {
            assert(middle.contains_key(id));
            assert(after[id].links == withdrawn(middle, source)[id].links);
        }
    } else {
        law_retired_sources_list_nothing(repos, list, repos_dir, count - 1, place);
        lemma_reconciled_consistent(middle, other, found, repos_dir);
        law_reconciling_destroys_nothing(middle, other, found, repos_dir);
        lemma_links_of_new(middle, other, found, repos_dir);
        assert(other != source);
        assert forall|id: Seq<char>| #[trigger] after.contains_key(id) implies !active_sources(
            after[id].links,
        ).contains(source) by {
            if middle.contains_key(id) {
                let kept = after[id].links.remove(other);
                assert(kept == middle[id].links.remove(other));
                assert(kept.contains_key(source) == after[id].links.contains_key(source));
                if kept.contains_key(source) {
                    assert(kept[source] == after[id].links[source]);
                    assert(middle[id].links.remove(other)[source] == middle[id].links[source]);
                    assert(!active_sources(middle[id].links).contains(source));
                }
            }
        }
    }
}

/// Whether some repository that a source lists has a remote.
pub open spec fn url_listed(found: Seq<SpecModel>, url: Seq<char>) -> bool {
    exists|i: int| 0 <= i < found.len() && (#[trigger] found[i]).canonical_url == url
}

/// What a source lists is known by its remotes, has acceptable names, and is
/// all that is new.
proof fn lemma_discovered_new(
    repos: Inventory,
    source: Seq<char>,
    found: Seq<SpecModel>,
    repos_dir: Seq<char>,
    count: int,
)
    requires
        consistent(repos),
        0 <= count <= found.len(),
        discovered_all(repos, source, found, repos_dir, count) is Ok,
    ensures
        forall|i: int| 0 <= i < count ==> valid_repo_name((#[trigger] found[i]).id),
        forall|id: Seq<char>| #[trigger]
            discovered_all(repos, source, found, repos_dir, count)->Ok_0.contains_key(id)
                && !repos.contains_key(id) ==> url_listed(
                found,
                discovered_all(repos, source, found, repos_dir, count)->Ok_0[id].canonical_url,
            ),
    decreases count,
{
    if count > 0 {
        lemma_discovered_new(repos, source, found, repos_dir, count - 1);
        lemma_discovered_keeps(repos, source, found, repos_dir, count - 1);
        let middle = discovered_all(repos, source, found, repos_dir, count - 1)->Ok_0;
        let after = discovered_all(repos, source, found, repos_dir, count)->Ok_0;
        lemma_discovered(middle, source, found[count - 1], repos_dir);
        let last = repository_id(middle, found[count - 1])->Ok_0;
        assert forall|id: Seq<char>| #[trigger]
            after.contains_key(id) && !repos.contains_key(id) implies url_listed(
            found,
            after[id].canonical_url,
        ) by {
            if id == last {
                assert(found[count - 1].canonical_url == after[id].canonical_url);
            } else {
                assert(middle.contains_key(id));
            }
        }
    }
}

/// After a source was reconciled it lists exactly what it found.
pub proof fn law_sources_list_what_they_found(
    repos: Inventory,
    source: Seq<char>,
    found: Seq<SpecModel>,
    repos_dir: Seq<char>,
    id: Seq<char>,
)
    requires
        consistent(repos),
        reconciled(repos, source, found, repos_dir) is Ok,
        reconciled(repos, source, found, repos_dir)->Ok_0.contains_key(id),
    ensures
        active_sources(reconciled(repos, source, found, repos_dir)->Ok_0[id].links).contains(source)
            == url_listed(
            found,
            reconciled(repos, source, found, repos_dir)->Ok_0[id].canonical_url,
        ),
{
    let start = withdrawn(repos, source);
    lemma_withdrawn_consistent(repos, source);
    let total = found.len() as int;
    lemma_discovered_new(start, source, found, repos_dir, total);
    lemma_discovered_keeps(start, source, found, repos_dir, total);
    let last = discovered_all(start, source, found, repos_dir, total)->Ok_0;
    let after = reconciled(repos, source, found, repos_dir)->Ok_0;
    assert(after == settled(last));
    assert(last.contains_key(id));
    if url_listed(found, last[id].canonical_url) {
        let i = choose|i: int|
            0 <= i < found.len() && (#[trigger] found[i]).canonical_url == last[id].canonical_url;
        lemma_discovered_present(start, source, found, repos_dir, total, i);
        lemma_id_by_url(last, id);
    } else {
        assert(start.contains_key(id));
        assert forall|i: int| 0 <= i < found.len() implies #[trigger] found[i].canonical_url
            != start[id].canonical_url by {
            assert(last[id].canonical_url == start[id].canonical_url);
        }
        lemma_discovered_untouched(start, source, found, repos_dir, total, id);
    }
}

/// What is known by its remote with an acceptable name is taken in without a
/// problem, and nothing new comes with it.
proof fn lemma_discovered_again(
    repos: Inventory,
    source: Seq<char>,
    found: Seq<SpecModel>,
    repos_dir: Seq<char>,
    count: int,
)
    requires
        consistent(repos),
        0 <= count <= found.len(),
        forall|i: int|
            0 <= i < found.len() ==> valid_repo_name((#[trigger] found[i]).id) && id_by_url(
                repos,
                found[i].canonical_url,
            ) is Some,
    ensures
        discovered_all(repos, source, found, repos_dir, count) is Ok,
        discovered_all(repos, source, found, repos_dir, count)->Ok_0.dom() == repos.dom(),
    decreases count,
{
    if count > 0 {
        lemma_discovered_again(repos, source, found, repos_dir, count - 1);
        lemma_discovered_keeps(repos, source, found, repos_dir, count - 1);
        let middle = discovered_all(repos, source, found, repos_dir, count - 1)->Ok_0;
        let spec = found[count - 1];
        let id = id_by_url(repos, spec.canonical_url)->Some_0;
        assert(repos.contains_key(id));
        assert(middle.contains_key(id));
        lemma_id_by_url(middle, id);
        let after = discovered_all(repos, source, found, repos_dir, count)->Ok_0;
        assert(after.dom() =~= repos.dom());
    }
}

/// No two listings are of the same source.
pub open spec fn sources_differ(list: Seq<ListingModel>) -> bool {
    forall|i: int, j: int|
        0 <= i < j < list.len() ==> (#[trigger] list[i]).0 != (#[trigger] list[j]).0
}

/// Whether the first of some sources list exactly what they found, which is
/// known by its remotes and has acceptable names.
spec fn lists_found(repos: Inventory, list: Seq<ListingModel>, count: int) -> bool {
    &&& forall|i: int, id: Seq<char>|
        0 <= i < count && repos.contains_key(id) ==> #[trigger] active_sources(
            repos[id].links,
        ).contains((#[trigger] list[i]).0) == url_listed(list[i].1, repos[id].canonical_url)
    &&& forall|i: int, k: int|
        0 <= i < count && 0 <= k < list[i].1.len() ==> valid_repo_name(
            (#[trigger] list[i].1[k]).id,
        ) && id_by_url(repos, list[i].1[k].canonical_url) is Some
}

/// After the first of some sources were reconciled, each of them lists exactly
/// what it found.
proof fn lemma_first_pass(
    repos: Inventory,
    list: Seq<ListingModel>,
    repos_dir: Seq<char>,
    count: int,
)
    requires
        consistent(repos),
        0 <= count <= list.len(),
        sources_differ(list),
        reconciled_all(repos, list, repos_dir, count).1 is None,
    ensures
        consistent(reconciled_all(repos, list, repos_dir, count).0),
        count > 0 ==> truthful(reconciled_all(repos, list, repos_dir, count).0),
        lists_found(reconciled_all(repos, list, repos_dir, count).0, list, count),
    decreases count,
{
    if count > 0 {
        lemma_first_pass(repos, list, repos_dir, count - 1);
        let middle = reconciled_all(repos, list, repos_dir, count - 1).0;
        let after = reconciled_all(repos, list, repos_dir, count).0;
        let (source, found) = list[count - 1];
        lemma_reconciled_consistent(middle, source, found, repos_dir);
        law_reconciling_destroys_nothing(middle, source, found, repos_dir);
        lemma_links_of_new(middle, source, found, repos_dir);
        let start = withdrawn(middle, source);
        lemma_withdrawn_consistent(middle, source);
        lemma_discovered_new(start, source, found, repos_dir, found.len() as int);
        assert forall|i: int, id: Seq<char>| 0 <= i < count && after.contains_key(id) implies
            #[trigger] active_sources(after[id].links).contains((#[trigger] list[i]).0)
            == url_listed(list[i].1, after[id].canonical_url) by {
            let other = list[i].0;
            if i == count - 1 {
                law_sources_list_what_they_found(middle, source, found, repos_dir, id);
            } else {
                assert(list[i].0 != list[count - 1].0);
                if middle.contains_key(id) {
                    let kept = after[id].links.remove(source);
                    assert(kept == middle[id].links.remove(source));
                    assert(kept.contains_key(other) == after[id].links.contains_key(other));
                    assert(kept.contains_key(other) == middle[id].links.contains_key(other));
                    if kept.contains_key(other) {
                        assert(kept[other] == after[id].links[other]);
                        assert(kept[other] == middle[id].links[other]);
                    }
                    assert(active_sources(middle[id].links).contains(list[i].0) == url_listed(
                        list[i].1,
                        middle[id].canonical_url,
                    ));
                } else {
                    assert(!active_sources(after[id].links).contains(other));
                    if url_listed(list[i].1, after[id].canonical_url) {
                        let k = choose|k: int|
                            0 <= k < list[i].1.len() && (#[trigger] list[i].1[k]).canonical_url
                                == after[id].canonical_url;
                        assert(id_by_url(middle, list[i].1[k].canonical_url) is Some);
                        let known = id_by_url(middle, list[i].1[k].canonical_url)->Some_0;
                        assert(middle.contains_key(known));
                        assert(after.contains_key(known));
                        assert(known == id);
                    }
                }
            }
        }
        assert forall|i: int, k: int| 0 <= i < count && 0 <= k < list[i].1.len() implies
            valid_repo_name((#[trigger] list[i].1[k]).id) && id_by_url(
            after,
            list[i].1[k].canonical_url,
        ) is Some by {
            if i == count - 1 {
                assert(list[i].1[k] == found[k]);
                lemma_discovered_present(
                    start,
                    source,
                    found,
                    repos_dir,
                    found.len() as int,
                    k,
                );
                let last = discovered_all(start, source, found, repos_dir, found.len() as int)->Ok_0;
                let id = id_by_url(last, found[k].canonical_url)->Some_0;
                assert(last.contains_key(id));
                assert(after.contains_key(id));
            } else {
                let id = id_by_url(middle, list[i].1[k].canonical_url)->Some_0;
                assert(middle.contains_key(id));
                assert(after.contains_key(id));
            }
        }
    }
}

/// Whether two inventories hold the same repositories, listed by the same
/// sources.
spec fn same_lists(a: Inventory, b: Inventory) -> bool {
    &&& a.dom() == b.dom()
    &&& forall|id: Seq<char>| #[trigger]
        a.contains_key(id) ==> {
            &&& b[id].canonical_url == a[id].canonical_url
            &&& active_sources(b[id].links) == active_sources(a[id].links)
        }
}

/// Reconciling sources again that list exactly what they find has no problem,
/// and each lists the same.
proof fn lemma_second_pass(
    repos: Inventory,
    list: Seq<ListingModel>,
    repos_dir: Seq<char>,
    count: int,
)
    requires
        consistent(repos),
        0 <= count <= list.len(),
        sources_differ(list),
        lists_found(repos, list, list.len() as int),
    ensures
        reconciled_all(repos, list, repos_dir, count).1 is None,
        consistent(reconciled_all(repos, list, repos_dir, count).0),
        count > 0 ==> truthful(reconciled_all(repos, list, repos_dir, count).0),
        same_lists(repos, reconciled_all(repos, list, repos_dir, count).0),
    decreases count,
{
    if count > 0 {
        lemma_second_pass(repos, list, repos_dir, count - 1);
        let middle = reconciled_all(repos, list, repos_dir, count - 1).0;
        let (source, found) = list[count - 1];
        let start = withdrawn(middle, source);
        lemma_withdrawn_consistent(middle, source);
        assert forall|i: int| 0 <= i < found.len() implies valid_repo_name(
            (#[trigger] found[i]).id,
        ) && id_by_url(start, found[i].canonical_url) is Some by {
            assert(list[count - 1].1[i] == found[i]);
            let id = id_by_url(repos, found[i].canonical_url)->Some_0;
            assert(repos.contains_key(id));
            assert(middle.contains_key(id));
            assert(start.contains_key(id));
            assert(start[id].canonical_url == found[i].canonical_url);
        }
        lemma_discovered_again(start, source, found, repos_dir, found.len() as int);
        assert(reconciled(middle, source, found, repos_dir) is Ok);
        let after = reconciled(middle, source, found, repos_dir)->Ok_0;
        lemma_reconciled_consistent(middle, source, found, repos_dir);
        law_reconciling_destroys_nothing(middle, source, found, repos_dir);
        let last = discovered_all(start, source, found, repos_dir, found.len() as int)->Ok_0;
        assert(settled(last).dom() =~= last.dom());
        assert(start.dom() =~= middle.dom());
        assert(after.dom() == repos.dom());
        assert forall|id: Seq<char>| #[trigger] repos.contains_key(id) implies {
            &&& after[id].canonical_url == repos[id].canonical_url
            &&& active_sources(after[id].links) == active_sources(repos[id].links)
        } by {
            assert(middle.contains_key(id));
            assert(after.contains_key(id));
            law_sources_list_what_they_found(middle, source, found, repos_dir, id);
            let kept = after[id].links.remove(source);
            assert(kept == middle[id].links.remove(source));
            assert forall|other: Seq<char>| active_sources(after[id].links).contains(other)
                == active_sources(repos[id].links).contains(other) by {
                if other == source {
                    assert(list[count - 1].0 == source);
                    assert(active_sources(repos[id].links).contains(list[count - 1].0)
                        == url_listed(list[count - 1].1, repos[id].canonical_url));
                } else {
                    assert(kept.contains_key(other) == after[id].links.contains_key(other));
                    assert(kept.contains_key(other) == middle[id].links.contains_key(other));
                    if kept.contains_key(other) {
                        assert(kept[other] == after[id].links[other]);
                        assert(kept[other] == middle[id].links[other]);
                    }
                    assert(active_sources(middle[id].links).contains(other) == active_sources(
                        after[id].links,
                    ).contains(other));
                }
            }
            assert(active_sources(after[id].links) =~= active_sources(repos[id].links));
        }
    }
}

/// If sources list the same, the same repositories are active.
proof fn lemma_same_active(a: Inventory, b: Inventory)
    requires
        same_lists(a, b),
        truthful(a),
        truthful(b),
    ensures
        listed_ids(a, false) == listed_ids(b, false),
{
    assert forall|id: Seq<char>| listed_ids(a, false).contains(id) == listed_ids(
        b,
        false,
    ).contains(id) by {
        assert(a.contains_key(id) == b.contains_key(id));
        if a.contains_key(id) {
            let l = a[id].links;
            let r = b[id].links;
            assert(active_sources(l) == active_sources(r));
            if has_source(l) {
                let source = choose|source: Seq<char>| #[trigger]
                    l.contains_key(source) && l[source].active;
                assert(active_sources(r).contains(source));
                assert(r.contains_key(source) && r[source].active);
            }
            if has_source(r) {
                let source = choose|source: Seq<char>| #[trigger]
                    r.contains_key(source) && r[source].active;
                assert(active_sources(l).contains(source));
                assert(l.contains_key(source) && l[source].active);
            }
        }
    }
    assert(listed_ids(a, false) =~= listed_ids(b, false));
}

/// Reconciling the same listings again has no problem and changes neither the
/// repositories of the inventory nor which of them are active; and a preview of
/// it, made from a listing of the inventory, calls the same ones active before
/// and after.
pub proof fn law_synchronizing_again_changes_nothing(
    repos: Inventory,
    list: Seq<ListingModel>,
    repos_dir: Seq<char>,
    current: Seq<RecordModel>,
)
    requires
        consistent(repos),
        truthful(repos),
        sources_differ(list),
        reconciled_all(repos, list, repos_dir, list.len() as int).1 is None,
        ({
            let after = reconciled_all(repos, list, repos_dir, list.len() as int).0;
            lists(after, after.dom(), current)
        }),
    ensures
        ({
            let after = reconciled_all(repos, list, repos_dir, list.len() as int).0;
            let again = reconciled_all(after, list, repos_dir, list.len() as int);
            &&& again.1 is None
            &&& again.0.dom() == after.dom()
            &&& listed_ids(again.0, false) == listed_ids(after, false)
            &&& plan_all(
                plan_of(current, current.len() as int),
                list,
                list.len() as int,
            ) matches Ok(plan)
            &&& planned_active(plan) == active_ids(current)
        }),
{
    let total = list.len() as int;
    lemma_first_pass(repos, list, repos_dir, total);
    let after = reconciled_all(repos, list, repos_dir, total).0;
    lemma_second_pass(after, list, repos_dir, total);
    let again = reconciled_all(after, list, repos_dir, total).0;
    assert(truthful(after));
    assert(truthful(again));
    lemma_same_active(after, again);
    law_previews_predict(after, current, list, repos_dir);
}

/// Whether the tags of what was found are read as they were given.
pub open spec fn all_read_back(found: Seq<SpecModel>) -> bool {
    forall|i: int| 0 <= i < found.len() ==> reads_back(#[trigger] found[i])
}

/// Taking in what a source lists adds nothing that cannot be read.
proof fn lemma_discovered_readable(
    repos: Inventory,
    source: Seq<char>,
    found: Seq<SpecModel>,
    repos_dir: Seq<char>,
    count: int,
)
    requires
        0 <= count <= found.len(),
        readable(repos, true),
        all_read_back(found),
        discovered_all(repos, source, found, repos_dir, count) is Ok,
    ensures
        readable(discovered_all(repos, source, found, repos_dir, count)->Ok_0, true),
    decreases count,
{
    if count > 0 {
        lemma_discovered_readable(repos, source, found, repos_dir, count - 1);
        lemma_status_of(RepoStatus::Pending);
        let middle = discovered_all(repos, source, found, repos_dir, count - 1)->Ok_0;
        let after = discovered_all(repos, source, found, repos_dir, count)->Ok_0;
        let spec = found[count - 1];
        assert(reads_back(spec));
        assert forall|id: Seq<char>| !#[trigger] bad_status(after, true, id) by {
            assert(!bad_status(middle, true, id));
        }
        assert forall|id: Seq<char>, other: Seq<char>| !#[trigger]
            bad_tags(after, true, id, other) by {
            assert(!bad_tags(middle, true, id, other));
        }
    }
}

/// Where all of an inventory can be read, all of it can be read after a source
/// was reconciled.
pub proof fn law_readable_inventories_stay_readable(
    repos: Inventory,
    source: Seq<char>,
    found: Seq<SpecModel>,
    repos_dir: Seq<char>,
)
    requires
        readable(repos, true),
        all_read_back(found),
        reconciled(repos, source, found, repos_dir) is Ok,
    ensures
        readable(reconciled(repos, source, found, repos_dir)->Ok_0, true),
{
    let start = withdrawn(repos, source);
    assert forall|id: Seq<char>| !#[trigger] bad_status(start, true, id) by {
        assert(!bad_status(repos, true, id));
    }
    assert forall|id: Seq<char>, other: Seq<char>| !#[trigger] bad_tags(start, true, id, other) by {
        assert(!bad_tags(repos, true, id, other));
    }
    lemma_discovered_readable(start, source, found, repos_dir, found.len() as int);
    let last = discovered_all(start, source, found, repos_dir, found.len() as int)->Ok_0;
    let after = settled(last);
    assert forall|id: Seq<char>| !#[trigger] bad_status(after, true, id) by {
        assert(!bad_status(last, true, id));
    }
    assert forall|id: Seq<char>, other: Seq<char>| !#[trigger] bad_tags(after, true, id, other) by {
        assert(!bad_tags(last, true, id, other));
    }
}

/// Where all of an inventory can be read, reconciling sources never stops
/// because it cannot be read: only a listing that is not acceptable stops it.
pub proof fn law_readable_inventories_are_reconciled(
    repos: Inventory,
    list: Seq<ListingModel>,
    repos_dir: Seq<char>,
    count: int,
)
    requires
        0 <= count <= list.len(),
        readable(repos, true),
        forall|i: int| 0 <= i < list.len() ==> all_read_back((#[trigger] list[i]).1),
    ensures
        readable(reconciled_all(repos, list, repos_dir, count).0, true),
        reading_stop(repos, list, repos_dir, count) is None,
    decreases count,
{
    if count > 0 {
        law_readable_inventories_are_reconciled(repos, list, repos_dir, count - 1);
        let (middle, problem) = reconciled_all(repos, list, repos_dir, count - 1);
        let (source, found) = list[count - 1];
        if problem is None && reconciled(middle, source, found, repos_dir) is Ok {
            law_readable_inventories_stay_readable(middle, source, found, repos_dir);
        }
    }
}

}
