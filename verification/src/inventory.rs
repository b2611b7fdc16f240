//! What the inventory holds, and what becomes of it when sources list their
//! repositories.

use vstd::prelude::*;

use crate::config::{repo_name_problem, valid_repo_name};
use crate::error::{ErrorModel, Result};
use crate::model::{RecordModel, RepoStatus, SpecModel};
use crate::path::joined;
use crate::string_set::{increasing, lemma_increasing_unique};
use crate::text::{before, debug_text};

verus! {

/// What a source says of a repository, as it is stored.
pub struct LinkModel {
    /// The tags as JSON text.
    pub tags_json: Seq<char>,
    /// Whether the source still lists the repository.
    pub active: bool,
}

/// A repository as it is stored.
pub struct RepoModel {
    pub canonical_url: Seq<char>,
    pub clone_url: Seq<char>,
    pub local_path: Seq<char>,
    pub default_branch: Option<Seq<char>>,
    pub active: bool,
    pub status: Seq<char>,
    pub last_error: Option<Seq<char>>,
    /// The tags of the languages found in the repository.
    pub detected: Set<Seq<char>>,
    /// What each source says of it, by the name of the source.
    pub links: Map<Seq<char>, LinkModel>,
}

/// The inventory: the repositories by their identifiers.
pub type Inventory = Map<Seq<char>, RepoModel>;

/// Whether no two repositories share a remote or a working tree.
pub open spec fn consistent(repos: Inventory) -> bool {
    forall|a: Seq<char>, b: Seq<char>| #[trigger]
        repos.contains_key(a) && #[trigger] repos.contains_key(b) && a != b ==> {
            &&& repos[a].canonical_url != repos[b].canonical_url
            &&& repos[a].local_path != repos[b].local_path
        }
}

/// The JSON text of a list of texts.
pub uninterp spec fn json_text(list: Seq<Seq<char>>) -> Seq<char>;

/// The list of texts of which a text is the JSON, if it is the JSON of one.
pub uninterp spec fn json_list(text: Seq<char>) -> std::result::Result<Seq<Seq<char>>, Seq<char>>;

/// Whether reading gave a list.
pub open spec fn read_as(
    read: std::result::Result<Seq<Seq<char>>, Seq<char>>,
    list: Seq<Seq<char>>,
) -> bool {
    match read {
        Ok(found) => found == list,
        Err(_) => false,
    }
}

/// The sources that still list a repository.
pub open spec fn active_sources(links: Map<Seq<char>, LinkModel>) -> Set<Seq<char>> {
    Set::new(|source: Seq<char>| links.contains_key(source) && links[source].active)
}

/// The sources that list some repository.
pub open spec fn known_sources(repos: Inventory) -> Set<Seq<char>> {
    Set::new(
        |source: Seq<char>|
            exists|id: Seq<char>| #[trigger]
                repos.contains_key(id) && active_sources(repos[id].links).contains(source),
    )
}

/// The tags that a stored text holds.
pub open spec fn stored_tags(tags_json: Seq<char>) -> Set<Seq<char>> {
    match json_list(tags_json) {
        Ok(list) => list.to_set(),
        Err(_) => Set::empty(),
    }
}

/// The tags that the sources which still list a repository give it.
pub open spec fn active_tags(links: Map<Seq<char>, LinkModel>) -> Set<Seq<char>> {
    Set::new(
        |tag: Seq<char>|
            exists|source: Seq<char>| #[trigger]
                active_sources(links).contains(source) && stored_tags(
                    links[source].tags_json,
                ).contains(tag),
    )
}

/// Whether a text is the word of a status.
pub open spec fn is_status(word: Seq<char>) -> bool {
    exists|status: RepoStatus| #[trigger] status.word() == word
}

/// The status of a word.
pub open spec fn status_of(word: Seq<char>) -> RepoStatus {
    choose|status: RepoStatus| #[trigger] status.word() == word
}

/// A repository of the inventory as it is listed.
pub open spec fn record_of(id: Seq<char>, repo: RepoModel) -> RecordModel {
    RecordModel {
        id,
        canonical_url: repo.canonical_url,
        clone_url: repo.clone_url,
        local_path: repo.local_path,
        default_branch: repo.default_branch,
        active: repo.active,
        status: status_of(repo.status),
        sources: active_sources(repo.links),
        tags: active_tags(repo.links).union(repo.detected),
        last_error: repo.last_error,
    }
}

/// The identifiers of some records.
pub open spec fn record_ids(list: Seq<RecordModel>) -> Seq<Seq<char>> {
    Seq::new(list.len(), |i: int| list[i].id)
}

/// Whether a repository belongs to a listing.
pub open spec fn listed(repos: Inventory, include_inactive: bool, id: Seq<char>) -> bool {
    repos.contains_key(id) && (include_inactive || repos[id].active)
}

/// Whether a list holds the records of some identifiers of the inventory, in
/// the order of the identifiers.
pub open spec fn lists(repos: Inventory, ids: Set<Seq<char>>, list: Seq<RecordModel>) -> bool {
    &&& increasing(record_ids(list))
    &&& record_ids(list).to_set() == ids
    &&& forall|i: int|
        0 <= i < list.len() ==> #[trigger] list[i] == record_of(list[i].id, repos[list[i].id])
}

/// The identifiers of a listing.
pub open spec fn listed_ids(repos: Inventory, include_inactive: bool) -> Set<Seq<char>> {
    Set::new(|id: Seq<char>| listed(repos, include_inactive, id))
}

/// Whether the stored status of a listed repository is no status.
pub open spec fn bad_status(repos: Inventory, include_inactive: bool, id: Seq<char>) -> bool {
    listed(repos, include_inactive, id) && !is_status(repos[id].status)
}

/// Whether the stored tags of a listed repository cannot be read.
pub open spec fn bad_tags(
    repos: Inventory,
    include_inactive: bool,
    id: Seq<char>,
    source: Seq<char>,
) -> bool {
    &&& listed(repos, include_inactive, id)
    &&& active_sources(repos[id].links).contains(source)
    &&& json_list(repos[id].links[source].tags_json) is Err
}

/// Whether an error is that of the first repository, in the order of the
/// identifiers, whose status cannot be read; or, if all of those can be read,
/// of the first tags.
pub open spec fn listing_problem(
    repos: Inventory,
    include_inactive: bool,
    error: ErrorModel,
) -> bool {
    ||| exists|id: Seq<char>|
        {
            &&& #[trigger] bad_status(repos, include_inactive, id)
            &&& forall|other: Seq<char>| #[trigger]
                bad_status(repos, include_inactive, other) ==> !before(other, id)
            &&& error == ErrorModel::Sql(
                "Conversion error from type Text at index: 6, "@ + ErrorModel::Config(
                    "unknown repository status "@ + debug_text(repos[id].status),
                ).message(),
            )
        }
    ||| {
        &&& forall|id: Seq<char>| !#[trigger] bad_status(repos, include_inactive, id)
        &&& exists|id: Seq<char>, source: Seq<char>|
            {
                &&& #[trigger] bad_tags(repos, include_inactive, id, source)
                &&& forall|other: Seq<char>, place: Seq<char>| #[trigger]
                    bad_tags(repos, include_inactive, other, place) ==> !before(other, id) && (other
                        == id ==> !before(place, source))
                &&& json_list(repos[id].links[source].tags_json) == Err::<
                    Seq<Seq<char>>,
                    Seq<char>,
                >(error->Json_0)
                &&& error is Json
            }
    }
}

/// Whether everything that a listing shows can be read.
pub open spec fn readable(repos: Inventory, include_inactive: bool) -> bool {
    &&& forall|id: Seq<char>| !#[trigger] bad_status(repos, include_inactive, id)
    &&& forall|id: Seq<char>, source: Seq<char>| !#[trigger]
        bad_tags(repos, include_inactive, id, source)
}

/// Where a listing has a problem, something in it cannot be read.
pub proof fn lemma_problem_is_unreadable(
    repos: Inventory,
    include_inactive: bool,
    error: ErrorModel,
)
    requires
        listing_problem(repos, include_inactive, error),
    ensures
        !readable(repos, include_inactive),
{
}

/// Whether the stored tags of a source that lists the repository cannot be
/// read.
pub open spec fn bad_link(links: Map<Seq<char>, LinkModel>, source: Seq<char>) -> bool {
    active_sources(links).contains(source) && json_list(links[source].tags_json) is Err
}

/// A word has at most one status.
pub proof fn lemma_status_of(status: RepoStatus)
    ensures
        is_status(status.word()),
        status_of(status.word()) == status,
{
    RepoStatus::law_words_differ(status_of(status.word()), status);
}

/// The identifiers of the active repositories that were synchronized and whose
/// working trees are among the given directories.
pub open spec fn searchable_ids(repos: Inventory, directories: Set<Seq<char>>) -> Set<Seq<char>> {
    Set::new(
        |id: Seq<char>|
            listed(repos, false, id) && status_of(repos[id].status) == RepoStatus::Ready
                && directories.contains(repos[id].local_path),
    )
}

/// Some records of an ordered list are an ordered list.
proof fn lemma_some_records(list: Seq<RecordModel>, keep: spec_fn(RecordModel) -> bool)
    requires
        increasing(record_ids(list)),
    ensures
        increasing(record_ids(list.filter(keep))),
        forall|i: int|
            0 <= i < list.filter(keep).len() ==> list.contains(#[trigger] list.filter(keep)[i])
                && keep(list.filter(keep)[i]),
        forall|i: int|
            0 <= i < list.len() && keep(#[trigger] list[i]) ==> list.filter(keep).contains(list[i]),
    decreases list.len(),
{
    reveal(Seq::filter);
    if list.len() > 0 {
        let less = list.drop_last();
        assert(record_ids(less) =~= record_ids(list).drop_last());
        lemma_some_records(less, keep);
        let kept = less.filter(keep);
        let last = list.last();
        assert forall|i: int| 0 <= i < kept.len() implies list.contains(#[trigger] kept[i])
            && before(kept[i].id, last.id) by {
            let j = less.index_of(kept[i]);
            assert(list[j] == kept[i]);
            assert(record_ids(list)[j] == kept[i].id);
            assert(record_ids(list)[list.len() - 1] == last.id);
        }
        assert(list[list.len() - 1] == last);
        if keep(last) {
            let all = kept.push(last);
            assert(list.filter(keep) == all);
            assert(all[kept.len() as int] == last);
            assert(record_ids(all) =~= record_ids(kept).push(last.id));
            assert forall|i: int| 0 <= i < list.len() && keep(#[trigger] list[i]) implies all.contains(
                list[i],
            ) by {
                if i < less.len() {
                    assert(less[i] == list[i]);
                    let j = kept.index_of(less[i]);
                    assert(all[j] == list[i]);
                }
            }
        } else {
            assert forall|i: int| 0 <= i < list.len() && keep(
                #[trigger] list[i],
            ) implies kept.contains(list[i]) by {
                assert(less[i] == list[i]);
            }
        }
    }
}

/// Some records of a listing are the listing of their identifiers.
pub proof fn lemma_lists_some(
    repos: Inventory,
    ids: Set<Seq<char>>,
    list: Seq<RecordModel>,
    keep: spec_fn(RecordModel) -> bool,
    kept_ids: Set<Seq<char>>,
)
    requires
        lists(repos, ids, list),
        forall|id: Seq<char>| #[trigger]
            kept_ids.contains(id) <==> ids.contains(id) && keep(record_of(id, repos[id])),
    ensures
        lists(repos, kept_ids, list.filter(keep)),
{
    lemma_some_records(list, keep);
    let kept = list.filter(keep);
    assert forall|i: int| 0 <= i < kept.len() implies #[trigger] kept[i] == record_of(
        kept[i].id,
        repos[kept[i].id],
    ) by {
        let j = list.index_of(kept[i]);
        assert(list[j] == kept[i]);
    }
    assert forall|id: Seq<char>| record_ids(kept).to_set().contains(id) == kept_ids.contains(id) by {
        if record_ids(kept).contains(id) {
            let i = record_ids(kept).index_of(id);
            let j = list.index_of(kept[i]);
            assert(list[j] == kept[i]);
            assert(record_ids(list)[j] == id);
            assert(record_ids(list).contains(id));
            assert(ids.contains(id));
        }
        if kept_ids.contains(id) {
            assert(record_ids(list).to_set().contains(id));
            let j = record_ids(list).index_of(id);
            assert(list[j].id == id);
            assert(keep(list[j]));
            let i = kept.index_of(list[j]);
            assert(record_ids(kept)[i] == id);
        }
    }
    assert(record_ids(kept).to_set() =~= kept_ids);
}

/// The inventory after a change of one repository; one that is not there
/// changes nothing.
pub open spec fn changed(repos: Inventory, id: Seq<char>, repo: RepoModel) -> Inventory {
    if repos.contains_key(id) {
        repos.insert(id, repo)
    } else {
        repos
    }
}

/// The first of two values that is known.
pub open spec fn first_known(first: Option<Seq<char>>, second: Option<Seq<char>>) -> Option<
    Seq<char>,
> {
    match first {
        Some(value) => Some(value),
        None => second,
    }
}

/// The inventory once a source lists none of its repositories.
pub open spec fn withdrawn(repos: Inventory, source: Seq<char>) -> Inventory {
    repos.map_values(
        |repo: RepoModel|
            RepoModel {
                links: if repo.links.contains_key(source) {
                    repo.links.insert(
                        source,
                        LinkModel { active: false, ..repo.links[source] },
                    )
                } else {
                    repo.links
                },
                ..repo
            },
    )
}

/// The repository that has a remote.
pub open spec fn id_by_url(repos: Inventory, url: Seq<char>) -> Option<Seq<char>> {
    if exists|id: Seq<char>| #[trigger] repos.contains_key(id) && repos[id].canonical_url == url {
        Some(choose|id: Seq<char>| #[trigger]
            repos.contains_key(id) && repos[id].canonical_url == url)
    } else {
        None
    }
}

/// The error about an identifier that stands for two remotes.
pub open spec fn identity_problem(id: Seq<char>, known: Seq<char>, url: Seq<char>) -> ErrorModel {
    ErrorModel::Config(
        "repository id "@ + debug_text(id) + " refers to both "@ + debug_text(known) + " and "@
            + debug_text(url),
    )
}

/// The identifier of a repository that a source lists: the one under which its
/// remote is known, or else the one that the source gives it.
pub open spec fn repository_id(repos: Inventory, spec: SpecModel) -> std::result::Result<
    Seq<char>,
    ErrorModel,
> {
    match id_by_url(repos, spec.canonical_url) {
        Some(id) => Ok(id),
        None => if repos.contains_key(spec.id) {
            Err(identity_problem(spec.id, repos[spec.id].canonical_url, spec.canonical_url))
        } else {
            Ok(spec.id)
        },
    }
}

/// The order in which a set of texts is written down.
pub open spec fn in_order(set: Set<Seq<char>>) -> Seq<Seq<char>> {
    choose|list: Seq<Seq<char>>| #[trigger] increasing(list) && list.to_set() == set
}

/// What a source that lists a repository says of it.
pub open spec fn fresh_link(spec: SpecModel) -> LinkModel {
    LinkModel { tags_json: json_text(in_order(spec.tags)), active: true }
}

/// Whether the tags that are stored for a repository are read as the tags that
/// its source gives it.
pub open spec fn reads_back(spec: SpecModel) -> bool {
    &&& json_list(fresh_link(spec).tags_json) is Ok
    &&& stored_tags(fresh_link(spec).tags_json) == spec.tags
}

/// The inventory once a source lists one more repository.
pub open spec fn discovered(
    repos: Inventory,
    source: Seq<char>,
    spec: SpecModel,
    repos_dir: Seq<char>,
) -> std::result::Result<Inventory, ErrorModel> {
    if !valid_repo_name(spec.id) {
        Err(ErrorModel::Config(repo_name_problem(spec.id)))
    } else {
        match repository_id(repos, spec) {
            Err(problem) => Err(problem),
            Ok(id) => if repos.contains_key(id) {
                Ok(
                    repos.insert(
                        id,
                        RepoModel {
                            clone_url: spec.clone_url,
                            default_branch: first_known(
                                spec.default_branch,
                                repos[id].default_branch,
                            ),
                            links: repos[id].links.insert(source, fresh_link(spec)),
                            ..repos[id]
                        },
                    ),
                )
            } else if exists|other: Seq<char>| #[trigger]
                repos.contains_key(other) && repos[other].local_path == joined(repos_dir, id) {
                Err(ErrorModel::Sql("UNIQUE constraint failed: repos.local_path"@))
            } else {
                Ok(
                    repos.insert(
                        id,
                        RepoModel {
                            canonical_url: spec.canonical_url,
                            clone_url: spec.clone_url,
                            local_path: joined(repos_dir, id),
                            default_branch: spec.default_branch,
                            active: true,
                            status: RepoStatus::Pending.word(),
                            last_error: None,
                            detected: Set::empty(),
                            links: Map::empty().insert(source, fresh_link(spec)),
                        },
                    ),
                )
            },
        }
    }
}

/// The inventory once a source lists the first of some repositories.
pub open spec fn discovered_all(
    repos: Inventory,
    source: Seq<char>,
    found: Seq<SpecModel>,
    repos_dir: Seq<char>,
    count: int,
) -> std::result::Result<Inventory, ErrorModel>
    decreases count,
{
    if count <= 0 {
        Ok(repos)
    } else {
        match discovered_all(repos, source, found, repos_dir, count - 1) {
            Err(problem) => Err(problem),
            Ok(earlier) => discovered(earlier, source, found[count - 1], repos_dir),
        }
    }
}

/// Whether some source lists a repository.
pub open spec fn has_source(links: Map<Seq<char>, LinkModel>) -> bool {
    exists|source: Seq<char>| #[trigger] links.contains_key(source) && links[source].active
}

/// The inventory with every repository active that some source lists.
pub open spec fn settled(repos: Inventory) -> Inventory {
    repos.map_values(
        |repo: RepoModel| RepoModel { active: has_source(repo.links), ..repo },
    )
}

/// The inventory after a source has listed its repositories.
pub open spec fn reconciled(
    repos: Inventory,
    source: Seq<char>,
    found: Seq<SpecModel>,
    repos_dir: Seq<char>,
) -> std::result::Result<Inventory, ErrorModel> {
    match discovered_all(
        withdrawn(repos, source),
        source,
        found,
        repos_dir,
        found.len() as int,
    ) {
        Err(problem) => Err(problem),
        Ok(repos) => Ok(settled(repos)),
    }
}

/// The identifiers under which the inventory knows what a source listed.
pub open spec fn found_ids(repos: Inventory, found: Seq<SpecModel>) -> Set<Seq<char>> {
    Set::new(
        |id: Seq<char>|
            repos.contains_key(id) && exists|i: int|
                0 <= i < found.len() && #[trigger] found[i].canonical_url
                    == repos[id].canonical_url,
    )
}

/// Only one repository has a remote.
pub proof fn lemma_id_by_url(repos: Inventory, id: Seq<char>)
    requires
        consistent(repos),
        repos.contains_key(id),
    ensures
        id_by_url(repos, repos[id].canonical_url) == Some(id),
{
}

/// A set has one order.
pub proof fn lemma_in_order(list: Seq<Seq<char>>)
    requires
        increasing(list),
    ensures
        in_order(list.to_set()) == list,
{
    lemma_increasing_unique(in_order(list.to_set()), list);
}

/// What a source does not list any more keeps its identity.
pub proof fn lemma_withdrawn_consistent(repos: Inventory, source: Seq<char>)
    requires
        consistent(repos),
    ensures
        consistent(withdrawn(repos, source)),
{
}

/// Every repository keeps its remote and its working tree, no two share them,
/// and what was listed is there.
pub proof fn lemma_discovered(
    repos: Inventory,
    source: Seq<char>,
    spec: SpecModel,
    repos_dir: Seq<char>,
)
    requires
        consistent(repos),
    ensures
        discovered(repos, source, spec, repos_dir) matches Ok(after) ==> {
            &&& consistent(after)
            &&& repository_id(repos, spec) matches Ok(id) && after.contains_key(id)
                && after[id].canonical_url == spec.canonical_url
            &&& after.dom() == repos.dom().insert(repository_id(repos, spec)->Ok_0)
            &&& forall|id: Seq<char>| #[trigger]
                repos.contains_key(id) ==> after[id].canonical_url == repos[id].canonical_url
        },
{
    if let Ok(after) = discovered(repos, source, spec, repos_dir) {
        assert(after.dom() =~= repos.dom().insert(repository_id(repos, spec)->Ok_0));
    }
}

/// The identifiers of what was listed so far grow by that of the next one.
pub proof fn lemma_found_ids(
    repos: Inventory,
    after: Inventory,
    found: Seq<SpecModel>,
    count: int,
    id: Seq<char>,
)
    requires
        consistent(after),
        0 <= count < found.len(),
        after.dom() == repos.dom().insert(id),
        after[id].canonical_url == found[count].canonical_url,
        forall|other: Seq<char>| #[trigger]
            repos.contains_key(other) ==> after[other].canonical_url == repos[other].canonical_url,
    ensures
        found_ids(after, found.take(count + 1)) == found_ids(repos, found.take(count)).insert(id),
{
    let more = found.take(count + 1);
    let fewer = found.take(count);
    let wanted = found_ids(repos, fewer).insert(id);
    assert forall|x: Seq<char>| found_ids(after, more).contains(x) == wanted.contains(x) by {
        if x == id {
            assert(more[count].canonical_url == after[id].canonical_url);
        } else {
            assert(after.contains_key(x) == repos.contains_key(x));
            if found_ids(after, more).contains(x) {
                let i = choose|i: int|
                    0 <= i < more.len() && #[trigger] more[i].canonical_url
                        == after[x].canonical_url;
                assert(after.contains_key(id));
                assert(i < count);
                assert(fewer[i].canonical_url == repos[x].canonical_url);
            }
            if found_ids(repos, fewer).contains(x) {
                let i = choose|i: int|
                    0 <= i < fewer.len() && #[trigger] fewer[i].canonical_url
                        == repos[x].canonical_url;
                assert(more[i].canonical_url == after[x].canonical_url);
            }
        }
    }
    assert(found_ids(after, more) =~= wanted);
}

/// A problem among the first repositories stays the outcome.
pub proof fn lemma_discovered_all_error(
    repos: Inventory,
    source: Seq<char>,
    found: Seq<SpecModel>,
    repos_dir: Seq<char>,
    count: int,
    total: int,
)
    requires
        0 <= count <= total,
        discovered_all(repos, source, found, repos_dir, count) is Err,
    ensures
        discovered_all(repos, source, found, repos_dir, total) == discovered_all(
            repos,
            source,
            found,
            repos_dir,
            count,
        ),
    decreases total - count,
{
    if count < total {
        lemma_discovered_all_error(repos, source, found, repos_dir, count, total - 1);
    }
}

/// Whether an inventory keeps what another one holds, but for what one source
/// says: its repositories with their identities, outcomes and languages, their
/// default branches once they are known, and what the other sources say.
pub open spec fn keeps(earlier: Inventory, later: Inventory, source: Seq<char>) -> bool {
    forall|id: Seq<char>| #[trigger]
        earlier.contains_key(id) ==> {
            &&& later.contains_key(id)
            &&& later[id].canonical_url == earlier[id].canonical_url
            &&& later[id].local_path == earlier[id].local_path
            &&& later[id].status == earlier[id].status
            &&& later[id].last_error == earlier[id].last_error
            &&& later[id].detected == earlier[id].detected
            &&& earlier[id].default_branch is Some ==> later[id].default_branch is Some
            &&& earlier[id].links.dom().subset_of(later[id].links.dom())
            &&& later[id].links.remove(source) == earlier[id].links.remove(source)
        }
}

/// What a source lists leaves every repository in the inventory as `keeps` says.
pub proof fn lemma_discovered_keeps(
    repos: Inventory,
    source: Seq<char>,
    found: Seq<SpecModel>,
    repos_dir: Seq<char>,
    count: int,
)
    requires
        consistent(repos),
        discovered_all(repos, source, found, repos_dir, count) is Ok,
    ensures
        consistent(discovered_all(repos, source, found, repos_dir, count)->Ok_0),
        keeps(repos, discovered_all(repos, source, found, repos_dir, count)->Ok_0, source),
    decreases count,
{
    if count > 0 {
        lemma_discovered_keeps(repos, source, found, repos_dir, count - 1);
        let middle = discovered_all(repos, source, found, repos_dir, count - 1)->Ok_0;
        let after = discovered_all(repos, source, found, repos_dir, count)->Ok_0;
        lemma_discovered(middle, source, found[count - 1], repos_dir);
        let id = repository_id(middle, found[count - 1])->Ok_0;
        assert forall|x: Seq<char>| #[trigger] repos.contains_key(x) implies after[x].links.remove(
            source,
        ) == repos[x].links.remove(source) && repos[x].links.dom().subset_of(
            after[x].links.dom(),
        ) by {
            assert(middle.contains_key(x));
            if x == id {
                assert(after[x].links.remove(source) =~= middle[x].links.remove(source));
            }
        }
    }
}

/// Reconciling a source destroys nothing: every repository stays in the
/// inventory with its identity, its outcome and its languages, and what the
/// other sources say of it stays as it is.
pub proof fn law_reconciling_destroys_nothing(
    repos: Inventory,
    source: Seq<char>,
    found: Seq<SpecModel>,
    repos_dir: Seq<char>,
)
    requires
        consistent(repos),
        reconciled(repos, source, found, repos_dir) is Ok,
    ensures
        keeps(repos, reconciled(repos, source, found, repos_dir)->Ok_0, source),
{
    let start = withdrawn(repos, source);
    lemma_discovered_keeps(start, source, found, repos_dir, found.len() as int);
    let last = discovered_all(start, source, found, repos_dir, found.len() as int)->Ok_0;
    let after = settled(last);
    assert forall|id: Seq<char>| #[trigger] repos.contains_key(id) implies {
        &&& after.contains_key(id)
        &&& after[id].canonical_url == repos[id].canonical_url
        &&& after[id].local_path == repos[id].local_path
        &&& after[id].status == repos[id].status
        &&& after[id].last_error == repos[id].last_error
        &&& after[id].detected == repos[id].detected
        &&& repos[id].default_branch is Some ==> after[id].default_branch is Some
        &&& repos[id].links.dom().subset_of(after[id].links.dom())
        &&& after[id].links.remove(source) == repos[id].links.remove(source)
    } by {
        assert(start.contains_key(id));
        assert(last.contains_key(id));
        assert(start[id].links.remove(source) =~= repos[id].links.remove(source));
        assert(start[id].links.dom() =~= repos[id].links.dom());
    }
}

/// Reconciling keeps identities apart.
pub proof fn lemma_reconciled_consistent(
    repos: Inventory,
    source: Seq<char>,
    found: Seq<SpecModel>,
    repos_dir: Seq<char>,
)
    requires
        consistent(repos),
        reconciled(repos, source, found, repos_dir) is Ok,
    ensures
        consistent(reconciled(repos, source, found, repos_dir)->Ok_0),
{
    lemma_withdrawn_consistent(repos, source);
    lemma_discovered_keeps(
        withdrawn(repos, source),
        source,
        found,
        repos_dir,
        found.len() as int,
    );
}

/// Of a repository that is new nobody but the source that listed it says
/// anything.
proof fn lemma_links_of_discovered(
    repos: Inventory,
    source: Seq<char>,
    found: Seq<SpecModel>,
    repos_dir: Seq<char>,
    count: int,
)
    requires
        consistent(repos),
        discovered_all(repos, source, found, repos_dir, count) is Ok,
    ensures
        forall|id: Seq<char>, other: Seq<char>| #[trigger]
            linked(discovered_all(repos, source, found, repos_dir, count)->Ok_0, id, other)
                && !repos.contains_key(id) ==> other == source,
    decreases count,
{
    if count > 0 {
        lemma_links_of_discovered(repos, source, found, repos_dir, count - 1);
        let middle = discovered_all(repos, source, found, repos_dir, count - 1)->Ok_0;
        let after = discovered_all(repos, source, found, repos_dir, count)->Ok_0;
        assert forall|id: Seq<char>, other: Seq<char>| #[trigger]
            linked(after, id, other) && !repos.contains_key(id) implies other == source by {
            if other != source {
                assert(linked(middle, id, other));
            }
        }
    }
}

/// Only the source that was reconciled says something of a new repository.
pub proof fn lemma_links_of_new(
    repos: Inventory,
    source: Seq<char>,
    found: Seq<SpecModel>,
    repos_dir: Seq<char>,
)
    requires
        consistent(repos),
        reconciled(repos, source, found, repos_dir) is Ok,
    ensures
        forall|id: Seq<char>, other: Seq<char>|
            reconciled(repos, source, found, repos_dir)->Ok_0.contains_key(id)
                && !repos.contains_key(id) && other != source ==> !(#[trigger] active_sources(
                reconciled(repos, source, found, repos_dir)->Ok_0[id].links,
            ).contains(other)),
{
    let start = withdrawn(repos, source);
    lemma_withdrawn_consistent(repos, source);
    lemma_links_of_discovered(start, source, found, repos_dir, found.len() as int);
    let last = discovered_all(start, source, found, repos_dir, found.len() as int)->Ok_0;
    let after = settled(last);
    assert forall|id: Seq<char>, other: Seq<char>|
        after.contains_key(id) && !repos.contains_key(id) && other != source implies !(
    #[trigger] active_sources(after[id].links).contains(other)) by {
        if active_sources(after[id].links).contains(other) {
            assert(linked(last, id, other));
            assert(!start.contains_key(id));
        }
    }
}

/// Whether exactly the repositories that some source lists are active.
pub open spec fn truthful(repos: Inventory) -> bool {
    forall|id: Seq<char>| #[trigger]
        repos.contains_key(id) ==> repos[id].active == has_source(repos[id].links)
}

/// In every state of the inventory exactly the repositories that some source
/// lists are active: it holds of the empty inventory and after a source was
/// reconciled, and neither a change that leaves what sources say nor the
/// removal of a repository breaks it.
pub proof fn law_activity_is_truthful(
    repos: Inventory,
    source: Seq<char>,
    found: Seq<SpecModel>,
    repos_dir: Seq<char>,
    id: Seq<char>,
    repo: RepoModel,
)
    ensures
        truthful(Map::empty()),
        reconciled(repos, source, found, repos_dir) matches Ok(after) ==> truthful(after),
        truthful(repos) && repo.active == repos[id].active && repo.links == repos[id].links
            ==> truthful(changed(repos, id, repo)),
        truthful(repos) ==> truthful(repos.remove(id)),
{
}

/// A repository that another source lists stays active, whatever a source
/// lists.
pub proof fn law_other_sources_keep_repositories_active(
    repos: Inventory,
    source: Seq<char>,
    found: Seq<SpecModel>,
    repos_dir: Seq<char>,
    id: Seq<char>,
    other: Seq<char>,
)
    requires
        consistent(repos),
        reconciled(repos, source, found, repos_dir) is Ok,
        repos.contains_key(id),
        other != source,
        active_sources(repos[id].links).contains(other),
    ensures
        reconciled(repos, source, found, repos_dir)->Ok_0[id].active,
{
    law_reconciling_destroys_nothing(repos, source, found, repos_dir);
    let after = reconciled(repos, source, found, repos_dir)->Ok_0;
    assert(after[id].links.remove(source)[other] == repos[id].links.remove(source)[other]);
    assert(after[id].links.remove(source).contains_key(other));
    assert(after[id].links.contains_key(other) && after[id].links[other].active);
}

/// A repository that a source does not list is left as it is.
pub proof fn lemma_discovered_untouched(
    repos: Inventory,
    source: Seq<char>,
    found: Seq<SpecModel>,
    repos_dir: Seq<char>,
    count: int,
    id: Seq<char>,
)
    requires
        consistent(repos),
        count <= found.len(),
        discovered_all(repos, source, found, repos_dir, count) is Ok,
        repos.contains_key(id),
        forall|i: int|
            0 <= i < found.len() ==> #[trigger] found[i].canonical_url != repos[id].canonical_url,
    ensures
        discovered_all(repos, source, found, repos_dir, count)->Ok_0[id] == repos[id],
    decreases count,
{
    if count > 0 {
        lemma_discovered_untouched(repos, source, found, repos_dir, count - 1, id);
        lemma_discovered_keeps(repos, source, found, repos_dir, count - 1);
        let middle = discovered_all(repos, source, found, repos_dir, count - 1)->Ok_0;
        lemma_discovered(middle, source, found[count - 1], repos_dir);
        assert(middle.contains_key(id));
        assert(found[count - 1].canonical_url != repos[id].canonical_url);
    }
}

/// A repository that a source does not list any more stays in the inventory,
/// and is active only if another source lists it.
pub proof fn law_vanished_repositories_become_inactive(
    repos: Inventory,
    source: Seq<char>,
    found: Seq<SpecModel>,
    repos_dir: Seq<char>,
    id: Seq<char>,
)
    requires
        consistent(repos),
        reconciled(repos, source, found, repos_dir) is Ok,
        repos.contains_key(id),
        forall|i: int|
            0 <= i < found.len() ==> #[trigger] found[i].canonical_url != repos[id].canonical_url,
    ensures
        reconciled(repos, source, found, repos_dir)->Ok_0.contains_key(id),
        reconciled(repos, source, found, repos_dir)->Ok_0[id].active == has_source(
            repos[id].links.remove(source),
        ),
{
    law_reconciling_destroys_nothing(repos, source, found, repos_dir);
    let start = withdrawn(repos, source);
    lemma_withdrawn_consistent(repos, source);
    assert(start.contains_key(id));
    lemma_discovered_untouched(start, source, found, repos_dir, found.len() as int, id);
    let links = start[id].links;
    let others = repos[id].links.remove(source);
    if has_source(links) {
        let other = choose|other: Seq<char>| #[trigger]
            links.contains_key(other) && links[other].active;
        assert(others.contains_key(other) && others[other].active);
    }
    if has_source(others) {
        let other = choose|other: Seq<char>| #[trigger]
            others.contains_key(other) && others[other].active;
        assert(links.contains_key(other) && links[other].active);
    }
}

/// What a source lists is in the inventory, and the source lists it there.
pub proof fn lemma_discovered_present(
    repos: Inventory,
    source: Seq<char>,
    found: Seq<SpecModel>,
    repos_dir: Seq<char>,
    count: int,
    i: int,
)
    requires
        consistent(repos),
        0 <= i < count <= found.len(),
        discovered_all(repos, source, found, repos_dir, count) is Ok,
    ensures
        id_by_url(
            discovered_all(repos, source, found, repos_dir, count)->Ok_0,
            found[i].canonical_url,
        ) matches Some(id) && {
            let repo = discovered_all(repos, source, found, repos_dir, count)->Ok_0[id];
            repo.links.contains_key(source) && repo.links[source].active
        },
    decreases count,
{
    lemma_discovered_keeps(repos, source, found, repos_dir, count - 1);
    let middle = discovered_all(repos, source, found, repos_dir, count - 1)->Ok_0;
    let after = discovered_all(repos, source, found, repos_dir, count)->Ok_0;
    lemma_discovered(middle, source, found[count - 1], repos_dir);
    let last = repository_id(middle, found[count - 1])->Ok_0;
    if i == count - 1 {
        lemma_id_by_url(after, last);
    } else {
        lemma_discovered_present(repos, source, found, repos_dir, count - 1, i);
        let id = id_by_url(middle, found[i].canonical_url)->Some_0;
        assert(after.contains_key(id));
        lemma_id_by_url(after, id);
    }
}

/// Every repository that a source lists is in the inventory afterwards, under
/// the identifier by which its remote is known, and is active.
pub proof fn law_listed_repositories_are_active(
    repos: Inventory,
    source: Seq<char>,
    found: Seq<SpecModel>,
    repos_dir: Seq<char>,
    i: int,
)
    requires
        consistent(repos),
        reconciled(repos, source, found, repos_dir) is Ok,
        0 <= i < found.len(),
    ensures
        ({
            let after = reconciled(repos, source, found, repos_dir)->Ok_0;
            &&& id_by_url(after, found[i].canonical_url) matches Some(id)
            &&& after.contains_key(id)
            &&& after[id].active
            &&& active_sources(after[id].links).contains(source)
        }),
{
    let start = withdrawn(repos, source);
    lemma_withdrawn_consistent(repos, source);
    lemma_discovered_present(start, source, found, repos_dir, found.len() as int, i);
    let last = discovered_all(start, source, found, repos_dir, found.len() as int)->Ok_0;
    let after = reconciled(repos, source, found, repos_dir)->Ok_0;
    let id = id_by_url(last, found[i].canonical_url)->Some_0;
    lemma_discovered_keeps(start, source, found, repos_dir, found.len() as int);
    assert(last.contains_key(id));
    assert(after.contains_key(id));
    assert(after[id].canonical_url == found[i].canonical_url);
    assert(consistent(after));
    lemma_id_by_url(after, id);
    assert(after[id].links.contains_key(source) && after[id].links[source].active);
}

/// Whether an inventory holds what a source says of a repository.
pub open spec fn linked(repos: Inventory, id: Seq<char>, source: Seq<char>) -> bool {
    repos.contains_key(id) && repos[id].links.contains_key(source)
}

}
