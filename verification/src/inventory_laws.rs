//! What holds of the inventory: what a source changes in it, and what is listed.

use vstd::prelude::*;

use crate::config::{repo_name_problem, valid_repo_name};
use crate::error::ErrorModel;
use crate::inventory::{
    Inventory, RepoModel, active_sources, consistent, discovered, discovered_all, found_ids,
    fresh_link, json_list, known_sources, lemma_discovered, lemma_discovered_keeps,
    lemma_discovered_untouched, lemma_id_by_url, lemma_withdrawn_consistent, listed_ids, lists,
    reads_back, reconciled, record_of, repository_id, searchable_ids, stored_tags, withdrawn,
};
use crate::model::{RecordModel, RepoStatus, SpecModel};
use crate::path::joined;
use crate::text::{before, debug_text};

verus! {

/// Whether some repository has a remote.
pub open spec fn has_remote(repos: Inventory, url: Seq<char>) -> bool {
    exists|id: Seq<char>| #[trigger] repos.contains_key(id) && repos[id].canonical_url == url
}

/// Whether some repository has a working tree at a path.
pub open spec fn has_tree(repos: Inventory, path: Seq<char>) -> bool {
    exists|id: Seq<char>| #[trigger] repos.contains_key(id) && repos[id].local_path == path
}

/// A repository whose remote is known is taken up under the identifier that it
/// has: with the remote address and the tags that the source gives, and the
/// default branch that the source names, or else the one that was known. All
/// else stays, and so do all other repositories.
pub proof fn law_known_repositories_are_taken_up(
    repos: Inventory,
    source: Seq<char>,
    spec: SpecModel,
    repos_dir: Seq<char>,
    id: Seq<char>,
)
    requires
        consistent(repos),
        valid_repo_name(spec.id),
        repos.contains_key(id),
        repos[id].canonical_url == spec.canonical_url,
    ensures
        ({
            &&& discovered(repos, source, spec, repos_dir) matches Ok(after)
            &&& after.dom() == repos.dom()
            &&& after[id].clone_url == spec.clone_url
            &&& spec.default_branch is Some ==> after[id].default_branch == spec.default_branch
            &&& spec.default_branch is None ==> after[id].default_branch == repos[id].default_branch
            &&& after[id].links.contains_key(source)
            &&& after[id].links[source].active
            &&& reads_back(spec) ==> {
                &&& json_list(after[id].links[source].tags_json) is Ok
                &&& stored_tags(after[id].links[source].tags_json) == spec.tags
            }
            &&& after[id].links.remove(source) == repos[id].links.remove(source)
            &&& after[id].canonical_url == repos[id].canonical_url
            &&& after[id].local_path == repos[id].local_path
            &&& after[id].active == repos[id].active
            &&& after[id].status == repos[id].status
            &&& after[id].last_error == repos[id].last_error
            &&& after[id].detected == repos[id].detected
            &&& forall|other: Seq<char>| #[trigger]
                repos.contains_key(other) && other != id ==> after[other] == repos[other]
        }),
{
    lemma_id_by_url(repos, id);
    let after = discovered(repos, source, spec, repos_dir)->Ok_0;
    assert(after.dom() =~= repos.dom());
    assert(after[id].links.remove(source) =~= repos[id].links.remove(source));
}

/// A repository that is new gets the identifier that the source gives it and a
/// working tree below the directory of all of them; it waits to be synchronized,
/// and nothing else is known of it.
pub proof fn law_new_repositories_are_added(
    repos: Inventory,
    source: Seq<char>,
    spec: SpecModel,
    repos_dir: Seq<char>,
)
    requires
        valid_repo_name(spec.id),
        !has_remote(repos, spec.canonical_url),
        !repos.contains_key(spec.id),
        !has_tree(repos, joined(repos_dir, spec.id)),
    ensures
        ({
            &&& discovered(repos, source, spec, repos_dir) matches Ok(after)
            &&& after.dom() == repos.dom().insert(spec.id)
            &&& after[spec.id].canonical_url == spec.canonical_url
            &&& after[spec.id].clone_url == spec.clone_url
            &&& after[spec.id].local_path == joined(repos_dir, spec.id)
            &&& after[spec.id].default_branch == spec.default_branch
            &&& after[spec.id].active
            &&& after[spec.id].status == "pending"@
            &&& after[spec.id].last_error is None
            &&& after[spec.id].detected == Set::<Seq<char>>::empty()
            &&& after[spec.id].links.dom() == Set::<Seq<char>>::empty().insert(source)
            &&& after[spec.id].links[source].active
            &&& reads_back(spec) ==> stored_tags(after[spec.id].links[source].tags_json)
                == spec.tags
            &&& forall|other: Seq<char>| #[trigger]
                repos.contains_key(other) ==> after[other] == repos[other]
        }),
{
    let after = discovered(repos, source, spec, repos_dir)->Ok_0;
    assert(after.dom() =~= repos.dom().insert(spec.id));
    assert(after[spec.id].links.dom() =~= Set::<Seq<char>>::empty().insert(source));
}

/// What is refused: a name that is not acceptable; an identifier that stands for
/// another remote, where the remote is new; and a working tree at a place that
/// is taken.
pub proof fn law_conflicting_repositories_are_refused(
    repos: Inventory,
    source: Seq<char>,
    spec: SpecModel,
    repos_dir: Seq<char>,
)
    ensures
        !valid_repo_name(spec.id) ==> discovered(repos, source, spec, repos_dir) == Err::<
            Inventory,
            ErrorModel,
        >(ErrorModel::Config(repo_name_problem(spec.id))),
        valid_repo_name(spec.id) && !has_remote(repos, spec.canonical_url) && repos.contains_key(
            spec.id,
        ) ==> discovered(repos, source, spec, repos_dir) == Err::<Inventory, ErrorModel>(
            ErrorModel::Config(
                "repository id "@ + debug_text(spec.id) + " refers to both "@ + debug_text(
                    repos[spec.id].canonical_url,
                ) + " and "@ + debug_text(spec.canonical_url),
            ),
        ),
        valid_repo_name(spec.id) && !has_remote(repos, spec.canonical_url) && !repos.contains_key(
            spec.id,
        ) && has_tree(repos, joined(repos_dir, spec.id)) ==> discovered(
            repos,
            source,
            spec,
            repos_dir,
        ) == Err::<Inventory, ErrorModel>(
            ErrorModel::Sql("UNIQUE constraint failed: repos.local_path"@),
        ),
{
}

/// Whether a listing is the last one of a remote among the first of some.
pub open spec fn is_last_listing(
    found: Seq<SpecModel>,
    count: int,
    url: Seq<char>,
    k: int,
) -> bool {
    &&& 0 <= k < count
    &&& found[k].canonical_url == url
    &&& forall|j: int| k < j < count ==> (#[trigger] found[j]).canonical_url != url
}

/// Whether a listing is the last one of a remote among the first of some that
/// names a default branch.
pub open spec fn names_branch_last(
    found: Seq<SpecModel>,
    count: int,
    url: Seq<char>,
    k: int,
) -> bool {
    &&& 0 <= k < count
    &&& found[k].canonical_url == url
    &&& found[k].default_branch is Some
    &&& forall|j: int|
        k < j < count && (#[trigger] found[j]).canonical_url == url
            ==> found[j].default_branch is None
}

/// What the first of some listings make of a repository.
proof fn lemma_last_listing(
    repos: Inventory,
    source: Seq<char>,
    found: Seq<SpecModel>,
    repos_dir: Seq<char>,
    count: int,
    id: Seq<char>,
    k: int,
)
    requires
        consistent(repos),
        0 <= count <= found.len(),
        discovered_all(repos, source, found, repos_dir, count) is Ok,
        discovered_all(repos, source, found, repos_dir, count)->Ok_0.contains_key(id),
    ensures
        ({
            let after = discovered_all(repos, source, found, repos_dir, count)->Ok_0;
            let url = after[id].canonical_url;
            &&& names_branch_last(found, count, url, k) ==> after[id].default_branch
                == found[k].default_branch
            &&& (forall|j: int|
                0 <= j < count && (#[trigger] found[j]).canonical_url == url
                    ==> found[j].default_branch is None) ==> after[id].default_branch == (
            if repos.contains_key(id) {
                repos[id].default_branch
            } else {
                None
            })
            &&& is_last_listing(found, count, url, k) ==> after[id].clone_url == found[k].clone_url
                && after[id].links.contains_key(source) && after[id].links[source] == fresh_link(
                found[k],
            )
        }),
    decreases count,
{
    if count > 0 {
        let middle = discovered_all(repos, source, found, repos_dir, count - 1)->Ok_0;
        let after = discovered_all(repos, source, found, repos_dir, count)->Ok_0;
        let spec = found[count - 1];
        lemma_discovered_keeps(repos, source, found, repos_dir, count - 1);
        lemma_discovered(middle, source, spec, repos_dir);
        let own = repository_id(middle, spec)->Ok_0;
        if middle.contains_key(id) {
            lemma_last_listing(repos, source, found, repos_dir, count - 1, id, k);
            if spec.canonical_url == after[id].canonical_url {
                assert(own == id);
            } else {
                assert(own != id);
                assert(after[id] == middle[id]);
            }
            let url = after[id].canonical_url;
            assert(middle[id].canonical_url == url);
            if names_branch_last(found, count, url, k) && k < count - 1 {
                assert(names_branch_last(found, count - 1, url, k));
            }
            if is_last_listing(found, count, url, k) && k < count - 1 {
                assert(is_last_listing(found, count - 1, url, k));
            }
        } else {
            assert(own == id);
            assert(!repos.contains_key(id));
            let url = after[id].canonical_url;
            assert forall|j: int| 0 <= j < count - 1 implies (#[trigger] found[j]).canonical_url
                != url by {
                crate::inventory::lemma_discovered_present(
                    repos,
                    source,
                    found,
                    repos_dir,
                    count - 1,
                    j,
                );
                if found[j].canonical_url == url {
                    let other = crate::inventory::id_by_url(middle, url)->Some_0;
                    assert(middle.contains_key(other));
                    assert(after.contains_key(other));
                    assert(after[other].canonical_url == url);
                    assert(other == id);
                }
            }
        }
    }
}

/// After a source was reconciled, the default branch of a repository is the one
/// that the source named, in the last of its listings of it that names one; only
/// where the source names none does the earlier one stay.
pub proof fn law_named_default_branches_are_taken_over(
    repos: Inventory,
    source: Seq<char>,
    found: Seq<SpecModel>,
    repos_dir: Seq<char>,
    id: Seq<char>,
    k: int,
)
    requires
        consistent(repos),
        reconciled(repos, source, found, repos_dir) is Ok,
        reconciled(repos, source, found, repos_dir)->Ok_0.contains_key(id),
    ensures
        ({
            let after = reconciled(repos, source, found, repos_dir)->Ok_0;
            let url = after[id].canonical_url;
            &&& names_branch_last(found, found.len() as int, url, k) ==> after[id].default_branch
                == found[k].default_branch
            &&& (forall|j: int|
                0 <= j < found.len() && (#[trigger] found[j]).canonical_url == url
                    ==> found[j].default_branch is None) ==> after[id].default_branch == (
            if repos.contains_key(id) {
                repos[id].default_branch
            } else {
                None
            })
        }),
{
    let start = withdrawn(repos, source);
    lemma_withdrawn_consistent(repos, source);
    lemma_last_listing(start, source, found, repos_dir, found.len() as int, id, k);
}

/// After a source was reconciled, the remote address of a repository that it
/// lists and the tags that it gives it are those of its last listing of it.
pub proof fn law_addresses_and_tags_are_taken_over(
    repos: Inventory,
    source: Seq<char>,
    found: Seq<SpecModel>,
    repos_dir: Seq<char>,
    id: Seq<char>,
    k: int,
)
    requires
        consistent(repos),
        reconciled(repos, source, found, repos_dir) is Ok,
        reconciled(repos, source, found, repos_dir)->Ok_0.contains_key(id),
        is_last_listing(
            found,
            found.len() as int,
            reconciled(repos, source, found, repos_dir)->Ok_0[id].canonical_url,
            k,
        ),
    ensures
        ({
            let after = reconciled(repos, source, found, repos_dir)->Ok_0;
            &&& after[id].clone_url == found[k].clone_url
            &&& after[id].links.contains_key(source)
            &&& after[id].links[source].active
            &&& reads_back(found[k]) ==> stored_tags(after[id].links[source].tags_json)
                == found[k].tags
        }),
{
    let start = withdrawn(repos, source);
    lemma_withdrawn_consistent(repos, source);
    lemma_last_listing(start, source, found, repos_dir, found.len() as int, id, k);
}

/// A repository that a source does not list is left as it is, but that this
/// source lists it no more and that it is active only if another one does.
pub proof fn law_unlisted_repositories_are_left(
    repos: Inventory,
    source: Seq<char>,
    found: Seq<SpecModel>,
    repos_dir: Seq<char>,
    id: Seq<char>,
    other: Seq<char>,
)
    requires
        consistent(repos),
        reconciled(repos, source, found, repos_dir) is Ok,
        repos.contains_key(id),
        forall|i: int|
            0 <= i < found.len() ==> #[trigger] found[i].canonical_url != repos[id].canonical_url,
    ensures
        ({
            let after = reconciled(repos, source, found, repos_dir)->Ok_0;
            &&& after.contains_key(id)
            &&& after[id].canonical_url == repos[id].canonical_url
            &&& after[id].clone_url == repos[id].clone_url
            &&& after[id].local_path == repos[id].local_path
            &&& after[id].default_branch == repos[id].default_branch
            &&& after[id].status == repos[id].status
            &&& after[id].last_error == repos[id].last_error
            &&& after[id].detected == repos[id].detected
            &&& after[id].links.dom() == repos[id].links.dom()
            &&& after[id].links.contains_key(source) ==> !after[id].links[source].active
                && after[id].links[source].tags_json == repos[id].links[source].tags_json
            &&& other != source && repos[id].links.contains_key(other) ==> after[id].links[other]
                == repos[id].links[other]
            &&& after[id].active <==> exists|place: Seq<char>|
                place != source && #[trigger] repos[id].links.contains_key(place)
                    && repos[id].links[place].active
        }),
{
    let start = withdrawn(repos, source);
    lemma_withdrawn_consistent(repos, source);
    assert(start.contains_key(id));
    lemma_discovered_keeps(start, source, found, repos_dir, found.len() as int);
    lemma_discovered_untouched(start, source, found, repos_dir, found.len() as int, id);
    let after = reconciled(repos, source, found, repos_dir)->Ok_0;
    assert(after[id].links == start[id].links);
    assert(after[id].links.dom() =~= repos[id].links.dom());
    let links = start[id].links;
    if after[id].active {
        let place = choose|place: Seq<char>| #[trigger]
            links.contains_key(place) && links[place].active;
        assert(repos[id].links.contains_key(place));
    }
    if exists|place: Seq<char>|
        place != source && #[trigger] repos[id].links.contains_key(place)
            && repos[id].links[place].active {
        let place = choose|place: Seq<char>|
            place != source && #[trigger] repos[id].links.contains_key(place)
                && repos[id].links[place].active;
        assert(links.contains_key(place) && links[place].active);
    }
}

/// The identifiers that reconciling a source gives back are those under which
/// the inventory knows what it lists.
pub proof fn law_found_identifiers(repos: Inventory, found: Seq<SpecModel>, id: Seq<char>)
    ensures
        found_ids(repos, found).contains(id) <==> repos.contains_key(id) && exists|i: int|
            0 <= i < found.len() && (#[trigger] found[i]).canonical_url == repos[id].canonical_url,
{
}

/// A listing shows a repository as the inventory has it: with the sources that
/// still list it, and with the tags that those give it and the languages found
/// in it.
pub proof fn law_records_show_the_inventory(
    id: Seq<char>,
    repo: RepoModel,
    source: Seq<char>,
    tag: Seq<char>,
    status: RepoStatus,
)
    ensures
        ({
            let record = record_of(id, repo);
            &&& record.id == id
            &&& record.canonical_url == repo.canonical_url
            &&& record.clone_url == repo.clone_url
            &&& record.local_path == repo.local_path
            &&& record.default_branch == repo.default_branch
            &&& record.active == repo.active
            &&& record.last_error == repo.last_error
            &&& repo.status == status.word() ==> record.status == status
            &&& record.sources.contains(source) <==> repo.links.contains_key(source)
                && repo.links[source].active
            &&& record.tags.contains(tag) <==> repo.detected.contains(tag) || exists|
                place: Seq<char>,
            | #[trigger]
                repo.links.contains_key(place) && repo.links[place].active && json_list(
                    repo.links[place].tags_json,
                ) is Ok && json_list(repo.links[place].tags_json)->Ok_0.contains(tag)
        }),
{
    if repo.status == status.word() {
        crate::inventory::lemma_status_of(status);
    }
    let record = record_of(id, repo);
    if record.tags.contains(tag) && !repo.detected.contains(tag) {
        let place = choose|place: Seq<char>| #[trigger]
            active_sources(repo.links).contains(place) && stored_tags(
                repo.links[place].tags_json,
            ).contains(tag);
        assert(repo.links.contains_key(place));
    }
    if exists|place: Seq<char>| #[trigger]
        repo.links.contains_key(place) && repo.links[place].active && json_list(
            repo.links[place].tags_json,
        ) is Ok && json_list(repo.links[place].tags_json)->Ok_0.contains(tag) {
        let place = choose|place: Seq<char>| #[trigger]
            repo.links.contains_key(place) && repo.links[place].active && json_list(
                repo.links[place].tags_json,
            ) is Ok && json_list(repo.links[place].tags_json)->Ok_0.contains(tag);
        assert(active_sources(repo.links).contains(place));
        assert(stored_tags(repo.links[place].tags_json).contains(tag));
    }
}

/// The words of the statuses as they are stored.
pub proof fn law_statuses_are_stored_as_words()
    ensures
        RepoStatus::Pending.word() == "pending"@,
        RepoStatus::Ready.word() == "ready"@,
        RepoStatus::Error.word() == "error"@,
{
}

/// A listing holds the active repositories, or all of them if the inactive ones
/// were asked for, each once and in the order of the identifiers.
pub proof fn law_listings_are_complete_and_in_order(
    repos: Inventory,
    include_inactive: bool,
    list: Seq<RecordModel>,
    id: Seq<char>,
    i: int,
    j: int,
)
    requires
        lists(repos, listed_ids(repos, include_inactive), list),
    ensures
        (exists|k: int| 0 <= k < list.len() && (#[trigger] list[k]).id == id)
            <==> repos.contains_key(id) && (include_inactive || repos[id].active),
        0 <= i < j < list.len() ==> before(list[i].id, list[j].id),
        0 <= i < list.len() ==> list[i] == record_of(list[i].id, repos[list[i].id]),
{
    let ids = crate::inventory::record_ids(list);
    assert(ids.to_set().contains(id) <==> listed_ids(repos, include_inactive).contains(id));
    if exists|k: int| 0 <= k < list.len() && (#[trigger] list[k]).id == id {
        let k = choose|k: int| 0 <= k < list.len() && (#[trigger] list[k]).id == id;
        assert(ids[k] == id);
    }
    if ids.to_set().contains(id) {
        let k = choose|k: int| 0 <= k < ids.len() && ids[k] == id;
        assert(list[k].id == id);
    }
    if 0 <= i < j < list.len() {
        assert(before(ids[i], ids[j]));
    }
}

/// Exactly the repositories are searched that are active, were synchronized and
/// have a working tree, where their status can be read.
pub proof fn law_searchable_repositories(
    repos: Inventory,
    directories: Set<Seq<char>>,
    id: Seq<char>,
    status: RepoStatus,
)
    requires
        repos[id].status == status.word(),
    ensures
        searchable_ids(repos, directories).contains(id) <==> repos.contains_key(id)
            && repos[id].active && repos[id].status == "ready"@ && directories.contains(
            repos[id].local_path,
        ),
{
    crate::inventory::lemma_status_of(status);
    if status.word() == RepoStatus::Ready.word() {
        RepoStatus::law_words_differ(status, RepoStatus::Ready);
    }
}

/// A source is known if and only if it still lists some repository.
pub proof fn law_known_sources_list_something(repos: Inventory, source: Seq<char>)
    ensures
        known_sources(repos).contains(source) <==> exists|id: Seq<char>| #[trigger]
            repos.contains_key(id) && repos[id].links.contains_key(source)
                && repos[id].links[source].active,
{
    if exists|id: Seq<char>| #[trigger]
        repos.contains_key(id) && repos[id].links.contains_key(source)
            && repos[id].links[source].active {
        let id = choose|id: Seq<char>| #[trigger]
            repos.contains_key(id) && repos[id].links.contains_key(source)
                && repos[id].links[source].active;
        assert(active_sources(repos[id].links).contains(source));
    }
}

}
