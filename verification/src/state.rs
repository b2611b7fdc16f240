//! The inventory of repositories.

use vstd::prelude::*;

use crate::config::validate_repo_name;
use crate::error::{Error, ErrorModel, Result};
use crate::inventory::{
    Inventory, LinkModel, RepoModel, active_sources, active_tags, bad_link, bad_status, bad_tags,
    changed, consistent, discovered, discovered_all, first_known, found_ids, fresh_link, has_source,
    json_list, json_text, known_sources, lemma_discovered, lemma_discovered_all_error,
    lemma_found_ids, lemma_id_by_url, lemma_in_order, lemma_lists_some, lemma_status_of,
    lemma_withdrawn_consistent, linked, listed, listed_ids, listing_problem, lists, read_as,
    readable, reads_back, reconciled, record_ids, record_of, repository_id, searchable_ids, settled,
    stored_tags, withdrawn,
};
use crate::model::{RecordModel, RepoRecord, RepoSpec, RepoStatus, records, specs};
use crate::path::path_join;
use crate::rows::{
    RepoRow, Rows, SourceRow, TagRow, bare_repo, has_repo_row, holds, kept_sources,
    lemma_filter_next, lemma_stores_nothing, lemma_stores_repo, lemma_stores_sound,
    lemma_stores_source, lemma_stores_tag, link_of, sound, sources_once, stores, with_source,
    with_tag,
};
use crate::string_set::{StringSet, increasing, lemma_increasing_distinct};
use crate::text::{
    before, cat2, cat3, cat5, debug_quote, debug_text, integer, integer_text, lemma_before_total,
    opt_clone, opt_text, text_eq, texts,
};
use crate::text_map::TextMap;

verus! {

/// The version of the tables in which the inventory is stored.
pub const SCHEMA_VERSION: i64 = 1;

/// What a source says of a repository.
#[derive(Debug)]
struct Link {
    tags_json: String,
    active: bool,
}

impl View for Link {
    type V = LinkModel;

    closed spec fn view(&self) -> LinkModel {
        LinkModel { tags_json: self.tags_json@, active: self.active }
    }
}

/// A repository.
#[derive(Debug)]
struct Entry {
    canonical_url: String,
    clone_url: String,
    local_path: String,
    default_branch: Option<String>,
    active: bool,
    status: String,
    last_error: Option<String>,
    detected: StringSet,
    links: TextMap<Link>,
}

/// The links of a repository, with their texts as characters.
spec fn link_models(links: Map<Seq<char>, Link>) -> Map<Seq<char>, LinkModel> {
    links.map_values(|link: Link| link@)
}

impl View for Entry {
    type V = RepoModel;

    closed spec fn view(&self) -> RepoModel {
        RepoModel {
            canonical_url: self.canonical_url@,
            clone_url: self.clone_url@,
            local_path: self.local_path@,
            default_branch: opt_text(self.default_branch),
            active: self.active,
            status: self.status@,
            last_error: opt_text(self.last_error),
            detected: self.detected@,
            links: link_models(self.links@),
        }
    }
}

/// The repositories, with their texts as characters.
spec fn repo_models(repos: Map<Seq<char>, Entry>) -> Inventory {
    repos.map_values(|entry: Entry| entry@)
}

/// The inventory of a workspace.
#[derive(Debug)]
pub struct State {
    repos: TextMap<Entry>,
}

impl View for State {
    type V = Inventory;

    closed spec fn view(&self) -> Inventory {
        repo_models(self.repos@)
    }
}

/// Calls `serde_json::to_string` on a list of texts. A list of texts can always
/// be written, and what was written is read back as the same list by
/// `serde_json::from_str`.
#[verifier::external_body]
fn list_to_json(list: &Vec<String>) -> (text: std::result::Result<String, String>)
    ensures
        match text {
            Ok(text) => text@ == json_text(texts(list@)) && read_as(
                json_list(text@),
                texts(list@),
            ),
            Err(_) => false,
        },
{
    serde_json::to_string(list).map_err(|error| error.to_string())
}

/// Calls `serde_json::from_str` for a list of texts; the error is its message.
#[verifier::external_body]
fn json_to_list(text: &str) -> (list: std::result::Result<Vec<String>, String>)
    ensures
        match list {
            Ok(list) => read_as(json_list(text@), texts(list@)),
            Err(problem) => json_list(text@) == Err::<Seq<Seq<char>>, Seq<char>>(problem@),
        },
{
    serde_json::from_str::<Vec<String>>(text).map_err(|error| error.to_string())
}

/// The sources that still list a repository.
fn link_sources(links: &TextMap<Link>) -> (sources: StringSet)
    ensures
        sources@ == active_sources(link_models(links@)),
{
    let mut sources = StringSet::new();
    let count = links.len();
    let ghost names = links.names();
    let ghost models = link_models(links@);
    let mut i: usize = 0;
    while i < count
        invariant
            i <= count,
            count == names.len(),
            names == links.names(),
            models == link_models(links@),
            names.to_set() == links@.dom(),
            forall|x: Seq<char>| #[trigger]
                sources@.contains(x) <==> exists|j: int|
                    0 <= j < i && #[trigger] names[j] == x && models[x].active,
        decreases count - i,
    {
        let ghost earlier = sources@;
        let link = links.value_at(i);
        if link.active {
            sources.insert(links.name_at(i).clone());
        }
        proof {
            assert(models[names[i as int]].active == link.active);
            assert forall|x: Seq<char>| #[trigger] sources@.contains(x) <==> exists|j: int|
                0 <= j < i + 1 && #[trigger] names[j] == x && models[x].active by {
                if sources@.contains(x) {
                    if earlier.contains(x) {
                        let j = choose|j: int|
                            0 <= j < i && #[trigger] names[j] == x && models[x].active;
                        assert(names[j] == x);
                    } else {
                        assert(names[i as int] == x);
                    }
                }
            }
        }
        i += 1;
    }
    proof {
        assert forall|x: Seq<char>| sources@.contains(x) == active_sources(models).contains(x) by {
            if active_sources(models).contains(x) {
                assert(names.to_set().contains(x));
                let j = names.index_of(x);
                assert(names[j] == x);
            }
            if sources@.contains(x) {
                let j = choose|j: int|
                    0 <= j < count && #[trigger] names[j] == x && models[x].active;
                assert(names.contains(names[j]));
                assert(names.to_set().contains(x));
            }
        }
        assert(sources@ =~= active_sources(models));
    }
    sources
}

/// The tags that the sources which still list a repository give it.
fn link_tags(links: &TextMap<Link>) -> (tags: std::result::Result<StringSet, String>)
    ensures
        match tags {
            Ok(tags) => {
                &&& tags@ == active_tags(link_models(links@))
                &&& forall|source: Seq<char>| !#[trigger] bad_link(link_models(links@), source)
            },
            Err(problem) => exists|source: Seq<char>|
                {
                    &&& #[trigger] bad_link(link_models(links@), source)
                    &&& json_list(link_models(links@)[source].tags_json)->Err_0 == problem@
                    &&& forall|other: Seq<char>| #[trigger]
                        bad_link(link_models(links@), other) ==> !before(other, source)
                },
        },
{
    let mut tags = StringSet::new();
    let count = links.len();
    let ghost names = links.names();
    let ghost models = link_models(links@);
    let mut i: usize = 0;
    while i < count
        invariant
            i <= count,
            count == names.len(),
            names == links.names(),
            models == link_models(links@),
            names.to_set() == links@.dom(),
            increasing(names),
            forall|j: int| 0 <= j < i ==> !bad_link(models, #[trigger] names[j]),
            forall|tag: Seq<char>| #[trigger]
                tags@.contains(tag) <==> exists|j: int|
                    0 <= j < i && models[#[trigger] names[j]].active && stored_tags(
                        models[names[j]].tags_json,
                    ).contains(tag),
        decreases count - i,
    {
        let ghost earlier = tags@;
        let ghost name = names[i as int];
        let link = links.value_at(i);
        proof {
            assert(names.contains(name));
            assert(models.contains_key(name) && models[name] == link@);
        }
        if link.active {
            match json_to_list(link.tags_json.as_str()) {
                Ok(list) => {
                    tags.extend(&StringSet::from_list(&list));
                },
                Err(problem) => {
                    proof {
                        assert(bad_link(models, name));
                        assert forall|other: Seq<char>| #[trigger]
                            bad_link(models, other) implies !before(other, name) by {
                            assert(names.to_set().contains(other));
                            let j = names.index_of(other);
                            assert(names[j] == other);
                            lemma_before_total(other, name);
                        }
                    }
                    return Err(problem);
                },
            }
        }
        proof {
            assert forall|tag: Seq<char>| #[trigger] tags@.contains(tag) <==> exists|j: int|
                0 <= j < i + 1 && models[#[trigger] names[j]].active && stored_tags(
                    models[names[j]].tags_json,
                ).contains(tag) by {
                if tags@.contains(tag) {
                    if earlier.contains(tag) {
                        let j = choose|j: int|
                            0 <= j < i && models[#[trigger] names[j]].active && stored_tags(
                                models[names[j]].tags_json,
                            ).contains(tag);
                        assert(models[names[j]].active);
                    } else {
                        assert(models[names[i as int]].active);
                    }
                }
            }
        }
        i += 1;
    }
    proof {
        assert forall|tag: Seq<char>| tags@.contains(tag) == active_tags(models).contains(tag) by {
            if active_tags(models).contains(tag) {
                let source = choose|source: Seq<char>| #[trigger]
                    active_sources(models).contains(source) && stored_tags(
                        models[source].tags_json,
                    ).contains(tag);
                assert(names.to_set().contains(source));
                let j = names.index_of(source);
                assert(models[names[j]].active);
            }
            if tags@.contains(tag) {
                let j = choose|j: int|
                    0 <= j < count && models[#[trigger] names[j]].active && stored_tags(
                        models[names[j]].tags_json,
                    ).contains(tag);
                assert(names.contains(names[j]));
                assert(names.to_set().contains(names[j]));
                assert(active_sources(models).contains(names[j]));
            }
        }
        assert(tags@ =~= active_tags(models));
        assert forall|source: Seq<char>| !#[trigger] bad_link(models, source) by {
            if bad_link(models, source) {
                assert(names.to_set().contains(source));
                let j = names.index_of(source);
                assert(bad_link(models, names[j]));
            }
        }
    }
    Ok(tags)
}

/// The record of a repository, without its tags.
fn bare_record(id: &String, entry: &Entry, status: RepoStatus) -> (record: RepoRecord)
    ensures
        record@ == (RecordModel {
            status,
            tags: Set::empty(),
            ..record_of(id@, entry@)
        }),
{
    RepoRecord {
        id: id.clone(),
        canonical_url: entry.canonical_url.clone(),
        clone_url: entry.clone_url.clone(),
        local_path: entry.local_path.clone(),
        default_branch: opt_clone(&entry.default_branch),
        active: entry.active,
        status,
        sources: link_sources(&entry.links),
        tags: StringSet::new(),
        last_error: opt_clone(&entry.last_error),
    }
}

/// Whether some places in an increasing list of names were picked in order.
spec fn picked(
    names: Seq<Seq<char>>,
    places: Seq<int>,
    count: int,
    list: Seq<RecordModel>,
) -> bool {
    &&& places.len() == list.len()
    &&& forall|k: int|
        0 <= k < places.len() ==> 0 <= #[trigger] places[k] < count && list[k].id == names[places[k]]
    &&& forall|k: int, l: int| 0 <= k < l < places.len() ==> places[k] < places[l]
}

/// The error about tables of a version that is not the current one.
pub open spec fn schema_problem(version: i64) -> ErrorModel {
    ErrorModel::Config("unsupported state schema "@ + integer(version as int) + "; expected 1"@)
}

/// The error about tables of a version that is not the current one.
fn unsupported_schema(version: i64) -> (error: Error)
    ensures
        error@ == schema_problem(version),
{
    Error::Config(
        cat3("unsupported state schema ", integer_text(version).as_str(), "; expected 1"),
    )
}

/// The links of a repository once a source does not list it.
fn withdraw_links(links: &TextMap<Link>, source: &str) -> (after: TextMap<Link>)
    ensures
        link_models(after@) == (if link_models(links@).contains_key(source@) {
            link_models(links@).insert(
                source@,
                LinkModel { active: false, ..link_models(links@)[source@] },
            )
        } else {
            link_models(links@)
        }),
{
    let mut after: TextMap<Link> = TextMap::new();
    let count = links.len();
    let ghost names = links.names();
    let mut i: usize = 0;
    while i < count
        invariant
            i <= count,
            count == names.len(),
            names == links.names(),
            names.to_set() == links@.dom(),
            forall|x: Seq<char>| #[trigger]
                after@.contains_key(x) <==> exists|j: int| 0 <= j < i && #[trigger] names[j] == x,
            forall|x: Seq<char>| #[trigger]
                after@.contains_key(x) ==> after@[x]@ == (LinkModel {
                    tags_json: links@[x]@.tags_json,
                    active: links@[x]@.active && x != source@,
                }),
        decreases count - i,
    {
        let ghost earlier = after@;
        let name = links.name_at(i);
        let link = links.value_at(i);
        let active = link.active && !text_eq(name.as_str(), source);
        after.insert(name.clone(), Link { tags_json: link.tags_json.clone(), active });
        proof {
            assert forall|x: Seq<char>| #[trigger] after@.contains_key(x) <==> exists|j: int|
                0 <= j < i + 1 && #[trigger] names[j] == x by {
                if after@.contains_key(x) {
                    if earlier.contains_key(x) {
                        let j = choose|j: int| 0 <= j < i && #[trigger] names[j] == x;
                        assert(names[j] == x);
                    } else {
                        assert(names[i as int] == x);
                    }
                }
            }
        }
        i += 1;
    }
    proof {
        assert forall|x: Seq<char>| after@.contains_key(x) == links@.contains_key(x) by {
            if links@.contains_key(x) {
                assert(names.to_set().contains(x));
                let j = names.index_of(x);
                assert(names[j] == x);
            }
            if after@.contains_key(x) {
                let j = choose|j: int| 0 <= j < count && #[trigger] names[j] == x;
                assert(names.contains(names[j]));
                assert(names.to_set().contains(x));
            }
        }
        let models = link_models(links@);
        if models.contains_key(source@) {
            assert(link_models(after@) =~= models.insert(
                source@,
                LinkModel { active: false, ..models[source@] },
            ));
        } else {
            assert(link_models(after@) =~= models);
        }
    }
    after
}

/// The repositories once a source lists none of them.
fn withdraw(repos: &TextMap<Entry>, source: &str) -> (after: TextMap<Entry>)
    ensures
        repo_models(after@) == withdrawn(repo_models(repos@), source@),
{
    let ghost models = repo_models(repos@);
    let ghost wanted = withdrawn(models, source@);
    let mut after: TextMap<Entry> = TextMap::new();
    let count = repos.len();
    let ghost names = repos.names();
    let mut i: usize = 0;
    while i < count
        invariant
            i <= count,
            count == names.len(),
            names == repos.names(),
            names.to_set() == repos@.dom(),
            models == repo_models(repos@),
            wanted == withdrawn(models, source@),
            forall|x: Seq<char>| #[trigger]
                after@.contains_key(x) <==> exists|j: int| 0 <= j < i && #[trigger] names[j] == x,
            forall|x: Seq<char>| #[trigger] after@.contains_key(x) ==> after@[x]@ == wanted[x],
        decreases count - i,
    {
        let ghost earlier = after@;
        let entry = repos.value_at(i);
        let copy = Entry {
            canonical_url: entry.canonical_url.clone(),
            clone_url: entry.clone_url.clone(),
            local_path: entry.local_path.clone(),
            default_branch: opt_clone(&entry.default_branch),
            active: entry.active,
            status: entry.status.clone(),
            last_error: opt_clone(&entry.last_error),
            detected: entry.detected.clone(),
            links: withdraw_links(&entry.links, source),
        };
        proof {
            assert(models[names[i as int]] == entry@);
            assert(copy@ == wanted[names[i as int]]);
        }
        after.insert(repos.name_at(i).clone(), copy);
        proof {
            assert forall|x: Seq<char>| #[trigger] after@.contains_key(x) <==> exists|j: int|
                0 <= j < i + 1 && #[trigger] names[j] == x by {
                if after@.contains_key(x) {
                    if earlier.contains_key(x) {
                        let j = choose|j: int| 0 <= j < i && #[trigger] names[j] == x;
                        assert(names[j] == x);
                    } else {
                        assert(names[i as int] == x);
                    }
                }
            }
        }
        i += 1;
    }
    proof {
        assert forall|x: Seq<char>| after@.contains_key(x) == repos@.contains_key(x) by {
            if repos@.contains_key(x) {
                assert(names.to_set().contains(x));
                let j = names.index_of(x);
                assert(names[j] == x);
            }
            if after@.contains_key(x) {
                let j = choose|j: int| 0 <= j < count && #[trigger] names[j] == x;
                assert(names.contains(names[j]));
                assert(names.to_set().contains(x));
            }
        }
        assert(repo_models(after@) =~= wanted);
    }
    after
}

/// The repositories with those active that some source lists.
fn settle(repos: TextMap<Entry>) -> (after: TextMap<Entry>)
    ensures
        repo_models(after@) == settled(repo_models(repos@)),
{
    let ghost models = repo_models(repos@);
    let ghost wanted = settled(models);
    let ghost names = repos.names();
    let ghost dom = repos@.dom();
    let (keys, entries) = repos.into_parts();
    let ghost all = entries@;
    let mut after: TextMap<Entry> = TextMap::new();
    let mut i: usize = 0;
    for entry in it: entries
        invariant
            it.seq() == all,
            i == it.index(),
            all.len() == keys@.len(),
            texts(keys@) == names,
            names.to_set() == dom,
            dom == repos@.dom(),
            models == repo_models(repos@),
            wanted == settled(models),
            forall|j: int| 0 <= j < all.len() ==> #[trigger] all[j] == repos@[names[j]],
            forall|x: Seq<char>| #[trigger]
                after@.contains_key(x) <==> exists|j: int| 0 <= j < i && #[trigger] names[j] == x,
            forall|x: Seq<char>| #[trigger] after@.contains_key(x) ==> after@[x]@ == wanted[x],
    {
        let ghost earlier = after@;
        let ghost at = it.index() as int;
        let mut entry = entry;
        proof {
            assert(i < keys.len());
            assert(names.contains(names[at]));
            assert(dom.contains(names[at]));
            assert(models[names[at]] == entry@);
        }
        let sources = link_sources(&entry.links);
        let active = !sources.is_empty();
        proof {
            let links = link_models(entry.links@);
            if has_source(links) {
                let source = choose|source: Seq<char>| #[trigger]
                    links.contains_key(source) && links[source].active;
                assert(active_sources(links).contains(source));
            }
            if active {
                let source = choose|source: Seq<char>| active_sources(links).contains(source);
                assert(exists|source: Seq<char>| active_sources(links).contains(source)) by {
                    if forall|source: Seq<char>| !active_sources(links).contains(source) {
                        assert(active_sources(links) =~= Set::empty());
                    }
                }
                assert(links.contains_key(source) && links[source].active);
            }
        }
        entry.active = active;
        proof {
            assert(entry@ == wanted[names[at]]);
        }
        after.insert(keys[i].clone(), entry);
        proof {
            assert forall|x: Seq<char>| #[trigger] after@.contains_key(x) <==> exists|j: int|
                0 <= j < i + 1 && #[trigger] names[j] == x by {
                if after@.contains_key(x) {
                    if earlier.contains_key(x) {
                        let j = choose|j: int| 0 <= j < i && #[trigger] names[j] == x;
                        assert(names[j] == x);
                    } else {
                        assert(names[i as int] == x);
                    }
                }
            }
        }
        i += 1;
    }
    proof {
        assert forall|x: Seq<char>| after@.contains_key(x) == repos@.contains_key(x) by {
            if repos@.contains_key(x) {
                assert(names.to_set().contains(x));
                let j = names.index_of(x);
                assert(names[j] == x);
            }
            if after@.contains_key(x) {
                let j = choose|j: int| 0 <= j < i && #[trigger] names[j] == x;
                assert(names.contains(names[j]));
                assert(names.to_set().contains(x));
            }
        }
        assert(repo_models(after@) =~= wanted);
    }
    after
}

/// The first repository for which a text is the remote, or the working tree.
fn find_by(repos: &TextMap<Entry>, text: &str, by_path: bool) -> (id: Option<String>)
    ensures
        match id {
            Some(id) => repo_models(repos@).contains_key(id@) && text@ == (if by_path {
                repo_models(repos@)[id@].local_path
            } else {
                repo_models(repos@)[id@].canonical_url
            }),
            None => forall|id: Seq<char>| #[trigger]
                repo_models(repos@).contains_key(id) ==> text@ != (if by_path {
                    repo_models(repos@)[id].local_path
                } else {
                    repo_models(repos@)[id].canonical_url
                }),
        },
{
    let ghost models = repo_models(repos@);
    let count = repos.len();
    let ghost names = repos.names();
    let mut i: usize = 0;
    while i < count
        invariant
            i <= count,
            count == names.len(),
            names == repos.names(),
            names.to_set() == repos@.dom(),
            models == repo_models(repos@),
            forall|j: int|
                0 <= j < i ==> text@ != (if by_path {
                    models[#[trigger] names[j]].local_path
                } else {
                    models[names[j]].canonical_url
                }),
        decreases count - i,
    {
        let entry = repos.value_at(i);
        proof {
            assert(models.contains_key(names[i as int]));
            assert(models[names[i as int]] == entry@);
        }
        let own = if by_path {
            entry.local_path.as_str()
        } else {
            entry.canonical_url.as_str()
        };
        if text_eq(own, text) {
            return Some(repos.name_at(i).clone());
        }
        i += 1;
    }
    proof {
        assert forall|id: Seq<char>| #[trigger] models.contains_key(id) implies text@ != (
        if by_path {
            models[id].local_path
        } else {
            models[id].canonical_url
        }) by {
            assert(names.to_set().contains(id));
            let j = names.index_of(id);
            assert(names[j] == id);
        }
    }
    None
}

/// Takes one repository that a source lists into the inventory.
fn discover_one(
    repos: &mut TextMap<Entry>,
    source: &str,
    spec: &RepoSpec,
    repos_dir: &str,
) -> (id: Result<String>)
    requires
        consistent(repo_models(old(repos)@)),
    ensures
        match id {
            Ok(id) => {
                &&& discovered(repo_models(old(repos)@), source@, spec@, repos_dir@) == Ok::<
                    Inventory,
                    ErrorModel,
                >(repo_models(final(repos)@))
                &&& repository_id(repo_models(old(repos)@), spec@) == Ok::<
                    Seq<char>,
                    ErrorModel,
                >(id@)
                &&& reads_back(spec@)
            },
            Err(error) => discovered(repo_models(old(repos)@), source@, spec@, repos_dir@) == Err::<
                Inventory,
                ErrorModel,
            >(error@),
        },
{
    let ghost models = repo_models(repos@);
    match validate_repo_name(spec.id.as_str()) {
        Ok(_) => {},
        Err(error) => return Err(error),
    }
    let id = match find_by(&*repos, spec.canonical_url.as_str(), false) {
        Some(id) => {
            proof {
                lemma_id_by_url(models, id@);
            }
            id
        },
        None => {
            if let Some(entry) = repos.get(spec.id.as_str()) {
                return Err(
                    Error::Config(
                        cat2(
                            cat5(
                                "repository id ",
                                debug_quote(spec.id.as_str()).as_str(),
                                " refers to both ",
                                debug_quote(entry.canonical_url.as_str()).as_str(),
                                " and ",
                            ).as_str(),
                            debug_quote(spec.canonical_url.as_str()).as_str(),
                        ),
                    ),
                );
            }
            spec.id.clone()
        },
    };
    let tags = spec.tags.to_list();
    proof {
        lemma_in_order(texts(tags@));
    }
    let tags_json = match list_to_json(&tags) {
        Ok(text) => text,
        Err(problem) => return Err(Error::Json(problem)),
    };
    let link = Link { tags_json, active: true };
    proof {
        assert(link@ == fresh_link(spec@));
    }
    match repos.remove(id.as_str()) {
        Some(entry) => {
            let ghost before_links = entry.links@;
            let mut entry = entry;
            entry.clone_url = spec.clone_url.clone();
            if spec.default_branch.is_some() {
                entry.default_branch = opt_clone(&spec.default_branch);
            }
            entry.links.insert(source.to_owned(), link);
            proof {
                assert(link_models(entry.links@) =~= link_models(before_links).insert(
                    source@,
                    fresh_link(spec@),
                ));
            }
            repos.insert(id.clone(), entry);
            proof {
                assert(repo_models(repos@) =~= discovered(
                    models,
                    source@,
                    spec@,
                    repos_dir@,
                )->Ok_0);
            }
        },
        None => {
            proof {
                assert(repo_models(repos@) =~= models);
            }
            let local_path = path_join(repos_dir, id.as_str());
            if find_by(&*repos, local_path.as_str(), true).is_some() {
                return Err(Error::Sql("UNIQUE constraint failed: repos.local_path".to_owned()));
            }
            let mut links: TextMap<Link> = TextMap::new();
            links.insert(source.to_owned(), link);
            proof {
                assert(link_models(links@) =~= Map::empty().insert(source@, fresh_link(spec@)));
            }
            let entry = Entry {
                canonical_url: spec.canonical_url.clone(),
                clone_url: spec.clone_url.clone(),
                local_path,
                default_branch: opt_clone(&spec.default_branch),
                active: true,
                status: RepoStatus::Pending.as_str().to_owned(),
                last_error: None,
                detected: StringSet::new(),
                links,
            };
            repos.insert(id.clone(), entry);
            proof {
                assert(repo_models(repos@) =~= discovered(
                    models,
                    source@,
                    spec@,
                    repos_dir@,
                )->Ok_0);
            }
        },
    }
    Ok(id)
}

impl State {
    #[verifier::type_invariant]
    spec fn keeps_identities(self) -> bool {
        consistent(repo_models(self.repos@))
    }

    /// An inventory without repositories.
    pub fn new() -> (state: State)
        ensures
            state@ == Map::<Seq<char>, RepoModel>::empty(),
    {
        let repos: TextMap<Entry> = TextMap::new();
        proof {
            assert(repo_models(repos@) =~= Map::empty());
        }
        State { repos }
    }

    /// The records of the repositories without their tags, in the order of
    /// their identifiers.
    fn bare_records(&self, include_inactive: bool) -> (list: Result<Vec<RepoRecord>>)
        ensures
            match list {
                Ok(list) => {
                    &&& forall|id: Seq<char>| !#[trigger] bad_status(self@, include_inactive, id)
                    &&& increasing(record_ids(records(list@)))
                    &&& record_ids(records(list@)).to_set() == listed_ids(self@, include_inactive)
                    &&& forall|i: int|
                        0 <= i < list@.len() ==> #[trigger] list@[i]@ == (RecordModel {
                            tags: Set::empty(),
                            ..record_of(list@[i]@.id, self@[list@[i]@.id])
                        })
                },
                Err(error) => listing_problem(self@, include_inactive, error@),
            },
    {
        let count = self.repos.len();
        let ghost names = self.repos.names();
        let ghost mut places: Seq<int> = Seq::empty();
        let mut list: Vec<RepoRecord> = Vec::new();
        let mut i: usize = 0;
        while i < count
            invariant
                i <= count,
                count == names.len(),
                names == self.repos.names(),
                increasing(names),
                names.to_set() == self.repos@.dom(),
                picked(names, places, i as int, records(list@)),
                forall|j: int|
                    0 <= j < i ==> !bad_status(self@, include_inactive, #[trigger] names[j]),
                forall|j: int|
                    0 <= j < i && listed(self@, include_inactive, #[trigger] names[j])
                        ==> exists|k: int| 0 <= k < places.len() && #[trigger] places[k] == j,
                forall|k: int|
                    0 <= k < list@.len() ==> listed(
                        self@,
                        include_inactive,
                        (#[trigger] list@[k])@.id,
                    ),
                forall|k: int|
                    0 <= k < list@.len() ==> #[trigger] list@[k]@ == (RecordModel {
                        tags: Set::empty(),
                        ..record_of(list@[k]@.id, self@[list@[k]@.id])
                    }),
            decreases count - i,
        {
            let ghost id = names[i as int];
            let ghost earlier = list@;
            let ghost earlier_places = places;
            let entry = self.repos.value_at(i);
            proof {
                assert(self@.contains_key(id) && self@[id] == entry@);
            }
            if include_inactive || entry.active {
                match RepoStatus::parse(entry.status.as_str()) {
                    Ok(status) => {
                        proof {
                            lemma_status_of(status);
                        }
                        list.push(bare_record(self.repos.name_at(i), entry, status));
                        proof {
                            places = places.push(i as int);
                            assert(records(list@) =~= records(earlier).push(list@.last()@));
                        }
                    },
                    Err(error) => {
                        proof {
                            assert(bad_status(self@, include_inactive, id));
                            assert forall|other: Seq<char>| #[trigger]
                                bad_status(self@, include_inactive, other) implies !before(
                                other,
                                id,
                            ) by {
                                assert(names.to_set().contains(other));
                                let j = names.index_of(other);
                                assert(names[j] == other);
                                lemma_before_total(other, id);
                            }
                        }
                        return Err(
                            Error::Sql(
                                cat2(
                                    "Conversion error from type Text at index: 6, ",
                                    error.message().as_str(),
                                ),
                            ),
                        );
                    },
                }
            }
            proof {
                assert forall|j: int|
                    0 <= j < i + 1 && listed(
                        self@,
                        include_inactive,
                        #[trigger] names[j],
                    ) implies exists|k: int|
                    0 <= k < places.len() && #[trigger] places[k] == j by {
                    if j < i {
                        let k = choose|k: int|
                            0 <= k < earlier_places.len() && #[trigger] earlier_places[k] == j;
                        assert(places[k] == j);
                    } else {
                        assert(places[places.len() - 1] == j);
                    }
                }
            }
            i += 1;
        }
        proof {
            let found = records(list@);
            assert forall|k: int, l: int| 0 <= k < l < found.len() implies before(
                record_ids(found)[k],
                record_ids(found)[l],
            ) by {
                assert(places[k] < places[l]);
            }
            assert forall|id: Seq<char>|
                record_ids(found).to_set().contains(id) == listed_ids(
                    self@,
                    include_inactive,
                ).contains(id) by {
                if record_ids(found).contains(id) {
                    let k = record_ids(found).index_of(id);
                    assert(list@[k]@.id == id);
                }
                if listed(self@, include_inactive, id) {
                    assert(names.to_set().contains(id));
                    let j = names.index_of(id);
                    assert(names[j] == id);
                    let k = choose|k: int| 0 <= k < places.len() && #[trigger] places[k] == j;
                    assert(record_ids(found)[k] == id);
                }
            }
            assert(record_ids(found).to_set() =~= listed_ids(self@, include_inactive));
            assert forall|id: Seq<char>| !#[trigger] bad_status(self@, include_inactive, id) by {
                if bad_status(self@, include_inactive, id) {
                    assert(names.to_set().contains(id));
                    let j = names.index_of(id);
                    assert(!bad_status(self@, include_inactive, names[j]));
                }
            }
        }
        Ok(list)
    }

    /// The sources that list some repository.
    pub fn sources(&self) -> (names: StringSet)
        ensures
            names@ == known_sources(self@),
    {
        let count = self.repos.len();
        let ghost ids = self.repos.names();
        let mut names = StringSet::new();
        let mut i: usize = 0;
        while i < count
            invariant
                i <= count,
                count == ids.len(),
                ids == self.repos.names(),
                ids.to_set() == self.repos@.dom(),
                forall|source: Seq<char>| #[trigger]
                    names@.contains(source) <==> exists|j: int|
                        0 <= j < i && active_sources(
                            self@[#[trigger] ids[j]].links,
                        ).contains(source),
            decreases count - i,
        {
            let ghost earlier = names@;
            let entry = self.repos.value_at(i);
            proof {
                assert(self@[ids[i as int]] == entry@);
            }
            names.extend(&link_sources(&entry.links));
            proof {
                assert forall|source: Seq<char>| #[trigger]
                    names@.contains(source) <==> exists|j: int|
                        0 <= j < i + 1 && active_sources(
                            self@[#[trigger] ids[j]].links,
                        ).contains(source) by {
                    if names@.contains(source) {
                        if earlier.contains(source) {
                            let j = choose|j: int|
                                0 <= j < i && active_sources(
                                    self@[#[trigger] ids[j]].links,
                                ).contains(source);
                            assert(active_sources(self@[ids[j]].links).contains(source));
                        } else {
                            assert(active_sources(self@[ids[i as int]].links).contains(source));
                        }
                    }
                }
            }
            i += 1;
        }
        proof {
            assert forall|source: Seq<char>| names@.contains(source) == known_sources(
                self@,
            ).contains(source) by {
                if names@.contains(source) {
                    let j = choose|j: int|
                        0 <= j < count && active_sources(
                            self@[#[trigger] ids[j]].links,
                        ).contains(source);
                    assert(ids.contains(ids[j]));
                    assert(ids.to_set().contains(ids[j]));
                    assert(self@.contains_key(ids[j]));
                }
                if known_sources(self@).contains(source) {
                    let id = choose|id: Seq<char>| #[trigger]
                        self@.contains_key(id) && active_sources(self@[id].links).contains(source);
                    assert(ids.to_set().contains(id));
                    let j = ids.index_of(id);
                    assert(active_sources(self@[ids[j]].links).contains(source));
                }
            }
            assert(names@ =~= known_sources(self@));
        }
        names
    }

    /// The repositories with the sources that still list them, in the order of
    /// their identifiers.
    pub fn list(&self, include_inactive: bool) -> (list: Result<Vec<RepoRecord>>)
        ensures
            match list {
                Ok(list) => {
                    &&& readable(self@, include_inactive)
                    &&& lists(self@, listed_ids(self@, include_inactive), records(list@))
                },
                Err(error) => listing_problem(self@, include_inactive, error@),
            },
    {
        let bare = match self.bare_records(include_inactive) {
            Ok(bare) => bare,
            Err(error) => return Err(error),
        };
        let ghost all = records(bare@);
        let ghost ids = record_ids(all);
        let mut list: Vec<RepoRecord> = Vec::new();
        for record in it: bare
            invariant
                it.seq() == bare@,
                all == records(bare@),
                ids == record_ids(all),
                increasing(ids),
                ids.to_set() == listed_ids(self@, include_inactive),
                forall|id: Seq<char>| !#[trigger] bad_status(self@, include_inactive, id),
                forall|i: int|
                    0 <= i < bare@.len() ==> #[trigger] bare@[i]@ == (RecordModel {
                        tags: Set::empty(),
                        ..record_of(bare@[i]@.id, self@[bare@[i]@.id])
                    }),
                list@.len() == it.index(),
                forall|i: int|
                    0 <= i < list@.len() ==> #[trigger] list@[i]@ == record_of(
                        ids[i],
                        self@[ids[i]],
                    ),
                forall|i: int, source: Seq<char>|
                    0 <= i < list@.len() ==> !#[trigger] bad_tags(
                        self@,
                        include_inactive,
                        ids[i],
                        source,
                    ),
        {
            let ghost at = it.index() as int;
            let ghost id = ids[at];
            proof {
                assert(bare@[at]@.id == id);
                assert(ids.contains(id));
                assert(listed_ids(self@, include_inactive).contains(id));
            }
            let mut record = record;
            if let Some(entry) = self.repos.get(record.id.as_str()) {
                proof {
                    assert(self@[id] == entry@);
                }
                match link_tags(&entry.links) {
                    Ok(tags) => {
                        record.tags = tags;
                        record.tags.extend(&entry.detected);
                        proof {
                            assert forall|source: Seq<char>| !#[trigger] bad_tags(
                                self@,
                                include_inactive,
                                id,
                                source,
                            ) by {
                                assert(!bad_link(link_models(entry.links@), source));
                            }
                        }
                    },
                    Err(problem) => {
                        proof {
                            let models = link_models(entry.links@);
                            let source = choose|source: Seq<char>|
                                {
                                    &&& #[trigger] bad_link(models, source)
                                    &&& json_list(models[source].tags_json)->Err_0 == problem@
                                    &&& forall|other: Seq<char>| #[trigger]
                                        bad_link(models, other) ==> !before(other, source)
                                };
                            assert(bad_tags(self@, include_inactive, id, source));
                            assert forall|other: Seq<char>, place: Seq<char>| #[trigger]
                                bad_tags(self@, include_inactive, other, place) implies !before(
                                other,
                                id,
                            ) && (other == id ==> !before(place, source)) by {
                                assert(listed_ids(self@, include_inactive).contains(other));
                                let j = ids.index_of(other);
                                assert(ids[j] == other);
                                lemma_before_total(other, id);
                                if other == id {
                                    assert(bad_link(models, place));
                                }
                            }
                        }
                        return Err(Error::Json(problem));
                    },
                }
            }
            list.push(record);
        }
        proof {
            assert(record_ids(records(list@)) =~= ids);
            assert forall|id: Seq<char>, source: Seq<char>| !#[trigger]
                bad_tags(self@, include_inactive, id, source) by {
                if bad_tags(self@, include_inactive, id, source) {
                    assert(listed_ids(self@, include_inactive).contains(id));
                    let j = ids.index_of(id);
                    assert(!bad_tags(self@, include_inactive, ids[j], source));
                }
            }
        }
        Ok(list)
    }

    /// The active repositories that were synchronized and whose working trees
    /// are among the given directories, in the order of their identifiers.
    pub fn searchable(&self, directories: &StringSet) -> (list: Result<Vec<RepoRecord>>)
        ensures
            match list {
                Ok(list) => {
                    &&& readable(self@, false)
                    &&& lists(self@, searchable_ids(self@, directories@), records(list@))
                },
                Err(error) => listing_problem(self@, false, error@),
            },
    {
        let all = match self.list(false) {
            Ok(all) => all,
            Err(error) => return Err(error),
        };
        let ghost found = records(all@);
        let ghost keep = |record: RecordModel|
            record.status == RepoStatus::Ready && directories@.contains(record.local_path);
        let mut list: Vec<RepoRecord> = Vec::new();
        proof {
            reveal(Seq::filter);
            assert(records(list@) =~= found.take(0).filter(keep));
        }
        for record in it: all
            invariant
                it.seq() == all@,
                found == records(all@),
                keep == (|record: RecordModel|
                    record.status == RepoStatus::Ready && directories@.contains(
                        record.local_path,
                    )),
                records(list@) == found.take(it.index() as int).filter(keep),
        {
            let ghost at = it.index() as int;
            let ghost earlier = list@;
            proof {
                reveal(Seq::filter);
                assert(found.take(at + 1).drop_last() =~= found.take(at));
                assert(found.take(at + 1).last() == record@);
            }
            if record.status == RepoStatus::Ready && directories.contains(
                record.local_path.as_str(),
            ) {
                list.push(record);
                proof {
                    assert(records(list@) =~= records(earlier).push(record@));
                }
            }
        }
        proof {
            assert(found.take(found.len() as int) =~= found);
            lemma_lists_some(
                self@,
                listed_ids(self@, false),
                found,
                keep,
                searchable_ids(self@, directories@),
            );
        }
        Ok(list)
    }

    /// Whether tables of a version have to be given the current version: those
    /// that were just created have version zero.
    pub fn initialize(version: i64) -> (created: Result<bool>)
        ensures
            match created {
                Ok(created) => if created {
                    version == 0
                } else {
                    version == SCHEMA_VERSION
                },
                Err(error) => {
                    &&& version != 0
                    &&& version != SCHEMA_VERSION
                    &&& error@ == schema_problem(version)
                },
            },
    {
        if version == 0 {
            Ok(true)
        } else if version != SCHEMA_VERSION {
            Err(unsupported_schema(version))
        } else {
            Ok(false)
        }
    }

    /// Every repository of an inventory that was stored with a version of the
    /// tables; none if there is no inventory.
    pub fn list_existing(stored: Option<(i64, &State)>) -> (list: Result<Vec<RepoRecord>>)
        ensures
            match stored {
                None => list matches Ok(list) && list@.len() == 0,
                Some((version, state)) => if version != SCHEMA_VERSION {
                    list matches Err(error) && error@ == schema_problem(version)
                } else {
                    match list {
                        Ok(list) => {
                            &&& readable(state@, true)
                            &&& lists(state@, state@.dom(), records(list@))
                        },
                        Err(error) => listing_problem(state@, true, error@),
                    }
                },
            },
    {
        match stored {
            None => Ok(Vec::new()),
            Some((version, state)) => {
                if version != SCHEMA_VERSION {
                    return Err(unsupported_schema(version));
                }
                proof {
                    assert(listed_ids(state@, true) =~= state@.dom());
                }
                state.list(true)
            },
        }
    }

    /// Records the outcome of a synchronization.
    fn set_result(&mut self, id: &str, status: RepoStatus, error: Option<String>)
        ensures
            final(self)@ == changed(
                old(self)@,
                id@,
                RepoModel {
                    status: status.word(),
                    last_error: opt_text(error),
                    ..old(self)@[id@]
                },
            ),
    {
        proof {
            use_type_invariant(&*self);
        }
        let ghost before_repos = self.repos@;
        let mut repos: TextMap<Entry> = TextMap::new();
        std::mem::swap(&mut repos, &mut self.repos);
        if let Some(entry) = repos.remove(id) {
            let mut entry = entry;
            entry.status = status.as_str().to_owned();
            entry.last_error = error;
            repos.insert(id.to_owned(), entry);
        }
        proof {
            assert(repo_models(repos@) =~= changed(
                repo_models(before_repos),
                id@,
                RepoModel {
                    status: status.word(),
                    last_error: opt_text(error),
                    ..repo_models(before_repos)[id@]
                },
            ));
        }
        self.repos = repos;
    }

    /// Marks a repository as synchronized and forgets its last error.
    pub fn mark_ready(&mut self, id: &str)
        ensures
            final(self)@ == changed(
                old(self)@,
                id@,
                RepoModel {
                    status: RepoStatus::Ready.word(),
                    last_error: None,
                    ..old(self)@[id@]
                },
            ),
    {
        self.set_result(id, RepoStatus::Ready, None);
    }

    /// Records a failed synchronization. A repository that was synchronized
    /// before may stay marked as such.
    pub fn mark_error(&mut self, id: &str, error: &str, preserve_ready: bool)
        ensures
            final(self)@ == changed(
                old(self)@,
                id@,
                RepoModel {
                    status: if preserve_ready {
                        old(self)@[id@].status
                    } else {
                        RepoStatus::Error.word()
                    },
                    last_error: Some(error@),
                    ..old(self)@[id@]
                },
            ),
    {
        if !preserve_ready {
            self.set_result(id, RepoStatus::Error, Some(error.to_owned()));
            return;
        }
        proof {
            use_type_invariant(&*self);
        }
        let ghost before_repos = self.repos@;
        let mut repos: TextMap<Entry> = TextMap::new();
        std::mem::swap(&mut repos, &mut self.repos);
        if let Some(entry) = repos.remove(id) {
            let mut entry = entry;
            entry.last_error = Some(error.to_owned());
            repos.insert(id.to_owned(), entry);
        }
        proof {
            assert(repo_models(repos@) =~= changed(
                repo_models(before_repos),
                id@,
                RepoModel { last_error: Some(error@), ..repo_models(before_repos)[id@] },
            ));
        }
        self.repos = repos;
    }

    /// Records the default branch of a repository, unless one is known.
    pub fn record_default_branch(&mut self, id: &str, branch: &str)
        ensures
            final(self)@ == changed(
                old(self)@,
                id@,
                RepoModel {
                    default_branch: first_known(old(self)@[id@].default_branch, Some(branch@)),
                    ..old(self)@[id@]
                },
            ),
    {
        proof {
            use_type_invariant(&*self);
        }
        let ghost before_repos = self.repos@;
        let mut repos: TextMap<Entry> = TextMap::new();
        std::mem::swap(&mut repos, &mut self.repos);
        if let Some(entry) = repos.remove(id) {
            let mut entry = entry;
            if entry.default_branch.is_none() {
                entry.default_branch = Some(branch.to_owned());
            }
            repos.insert(id.to_owned(), entry);
        }
        proof {
            assert(repo_models(repos@) =~= changed(
                repo_models(before_repos),
                id@,
                RepoModel {
                    default_branch: first_known(
                        repo_models(before_repos)[id@].default_branch,
                        Some(branch@),
                    ),
                    ..repo_models(before_repos)[id@]
                },
            ));
        }
        self.repos = repos;
    }

    /// Replaces the tags of the languages found in a repository.
    pub fn replace_detected_tags(&mut self, id: &str, tags: &StringSet)
        ensures
            final(self)@ == changed(
                old(self)@,
                id@,
                RepoModel { detected: tags@, ..old(self)@[id@] },
            ),
    {
        proof {
            use_type_invariant(&*self);
        }
        let ghost before_repos = self.repos@;
        let mut repos: TextMap<Entry> = TextMap::new();
        std::mem::swap(&mut repos, &mut self.repos);
        if let Some(entry) = repos.remove(id) {
            let mut entry = entry;
            entry.detected = tags.clone();
            repos.insert(id.to_owned(), entry);
        }
        proof {
            assert(repo_models(repos@) =~= changed(
                repo_models(before_repos),
                id@,
                RepoModel { detected: tags@, ..repo_models(before_repos)[id@] },
            ));
        }
        self.repos = repos;
    }

    /// Forgets a repository that no source lists any more.
    pub fn remove_inactive(&mut self, id: &str) -> (removed: Result<()>)
        ensures
            match removed {
                Ok(_) => {
                    &&& old(self)@.contains_key(id@)
                    &&& !old(self)@[id@].active
                    &&& final(self)@ == old(self)@.remove(id@)
                },
                Err(error) => {
                    &&& !old(self)@.contains_key(id@) || old(self)@[id@].active
                    &&& final(self)@ == old(self)@
                    &&& error@ == ErrorModel::Task(
                        "repository "@ + debug_text(id@) + " is no longer inactive"@,
                    )
                },
            },
    {
        let inactive = match self.repos.get(id) {
            Some(entry) => !entry.active,
            None => false,
        };
        if !inactive {
            return Err(
                Error::Task(cat3("repository ", debug_quote(id).as_str(), " is no longer inactive")),
            );
        }
        proof {
            use_type_invariant(&*self);
        }
        let ghost before_repos = self.repos@;
        let mut repos: TextMap<Entry> = TextMap::new();
        std::mem::swap(&mut repos, &mut self.repos);
        repos.remove(id);
        proof {
            assert(repo_models(repos@) =~= repo_models(before_repos).remove(id@));
        }
        self.repos = repos;
        Ok(())
    }

    /// Takes the repositories that a source lists into the inventory and says
    /// under which identifiers they are known. Those that it no longer lists
    /// stay there, and become inactive unless another source lists them. If
    /// something is not acceptable, nothing changes. If the source lists anything,
    /// all of the inventory has to be readable afterwards; if it is not, that is
    /// reported, and what was taken in stays.
    pub fn reconcile_source(
        &mut self,
        source: &str,
        found: &Vec<RepoSpec>,
        repos_dir: &str,
    ) -> (ids: Result<StringSet>)
        ensures
            consistent(old(self)@),
            consistent(final(self)@),
            match reconciled(old(self)@, source@, specs(found@), repos_dir@) {
                Err(problem) => {
                    &&& ids matches Err(error) && error@ == problem
                    &&& final(self)@ == old(self)@
                },
                Ok(repos) => {
                    &&& final(self)@ == repos
                    &&& match ids {
                        Ok(ids) => {
                            &&& found@.len() == 0 || readable(repos, true)
                            &&& ids@ == found_ids(repos, specs(found@))
                        },
                        Err(error) => {
                            &&& found@.len() > 0
                            &&& listing_problem(repos, true, error@)
                        },
                    }
                    &&& forall|i: int|
                        0 <= i < found@.len() ==> reads_back(#[trigger] specs(found@)[i])
                },
            },
    {
        proof {
            use_type_invariant(&*self);
        }
        let ghost start = withdrawn(self@, source@);
        let ghost all = specs(found@);
        let mut repos = withdraw(&self.repos, source);
        let mut ids = StringSet::new();
        let mut i: usize = 0;
        proof {
            lemma_withdrawn_consistent(self@, source@);
            assert(ids@ =~= found_ids(start, all.take(0)));
        }
        while i < found.len()
            invariant
                i <= found@.len(),
                all == specs(found@),
                self@ == old(self)@,
                consistent(self@),
                start == withdrawn(old(self)@, source@),
                consistent(repo_models(repos@)),
                discovered_all(start, source@, all, repos_dir@, i as int) == Ok::<
                    Inventory,
                    ErrorModel,
                >(repo_models(repos@)),
                ids@ == found_ids(repo_models(repos@), all.take(i as int)),
                forall|j: int| 0 <= j < i ==> reads_back(#[trigger] all[j]),
            decreases found@.len() - i,
        {
            let ghost earlier = repo_models(repos@);
            let ghost earlier_ids = ids@;
            match discover_one(&mut repos, source, &found[i], repos_dir) {
                Ok(id) => {
                    proof {
                        lemma_discovered(earlier, source@, all[i as int], repos_dir@);
                        lemma_found_ids(earlier, repo_models(repos@), all, i as int, id@);
                    }
                    ids.insert(id);
                },
                Err(error) => {
                    proof {
                        lemma_discovered_all_error(
                            start,
                            source@,
                            all,
                            repos_dir@,
                            i + 1,
                            all.len() as int,
                        );
                    }
                    return Err(error);
                },
            }
            i += 1;
        }
        let ghost last = repo_models(repos@);
        let repos = settle(repos);
        proof {
            assert(all.take(all.len() as int) =~= all);
            assert(consistent(settled(last)));
            assert(found_ids(settled(last), all) =~= found_ids(last, all));
        }
        self.repos = repos;
        if found.len() > 0 {
            match self.list(true) {
                Ok(_) => {},
                Err(error) => return Err(error),
            }
        }
        Ok(ids)
    }

    /// The inventory that rows hold. What rows say of repositories that are not
    /// there is left out. Rows that break the constraints of the tables hold no
    /// inventory.
    pub fn from_rows(rows: Rows) -> (state: Result<State>)
        ensures
            match state {
                Ok(state) => {
                    &&& sound(rows)
                    &&& holds(rows, state@)
                },
                Err(error) => {
                    &&& !sound(rows)
                    &&& error@ == ErrorModel::Sql("the stored inventory is inconsistent"@)
                },
            },
    {
        let Rows { repos: repo_rows, sources: source_rows, tags: tag_rows } = rows;
        let ghost all_repos = repo_rows@;
        let ghost all_sources = source_rows@;
        let ghost all_tags = tag_rows@;
        let mut repos: TextMap<Entry> = TextMap::new();
        proof {
            lemma_stores_nothing();
            assert(repo_models(repos@) =~= Map::empty());
            assert(all_repos.take(0) =~= Seq::empty());
        }
        for row in it: repo_rows
            invariant
                it.seq() == all_repos,
                all_repos == rows.repos@,
                consistent(repo_models(repos@)),
                stores(
                    all_repos.take(it.index() as int),
                    Seq::empty(),
                    Seq::empty(),
                    repo_models(repos@),
                ),
        {
            let ghost at = it.index() as int;
            let ghost models = repo_models(repos@);
            let ghost known = all_repos.take(at);
            let taken = repos.get(row.id.as_str()).is_some() || find_by(
                &repos,
                row.canonical_url.as_str(),
                false,
            ).is_some() || find_by(&repos, row.local_path.as_str(), true).is_some();
            if taken {
                proof {
                    let id = if models.contains_key(row.id@) {
                        row.id@
                    } else if exists|id: Seq<char>| #[trigger]
                        models.contains_key(id) && models[id].canonical_url == row.canonical_url@ {
                        choose|id: Seq<char>| #[trigger]
                            models.contains_key(id) && models[id].canonical_url
                                == row.canonical_url@
                    } else {
                        choose|id: Seq<char>| #[trigger]
                            models.contains_key(id) && models[id].local_path == row.local_path@
                    };
                    assert(models.contains_key(id));
                    let k = choose|k: int|
                        0 <= k < known.len() && (#[trigger] known[k]).id@ == id;
                    assert(bare_repo(known[k]).canonical_url == models[id].canonical_url);
                    assert(bare_repo(known[k]).local_path == models[id].local_path);
                    assert(rows.repos@[k] == known[k]);
                    assert(rows.repos@[at] == row);
                }
                return Err(Error::Sql("the stored inventory is inconsistent".to_owned()));
            }
            proof {
                lemma_stores_repo(known, Seq::empty(), Seq::empty(), models, row);
                assert(all_repos.take(at + 1) =~= known.push(row));
            }
            let ghost id = row.id@;
            let ghost bare = bare_repo(row);
            let entry = Entry {
                canonical_url: row.canonical_url,
                clone_url: row.clone_url,
                local_path: row.local_path,
                default_branch: row.default_branch,
                active: row.active,
                status: row.status,
                last_error: row.last_error,
                detected: StringSet::new(),
                links: TextMap::new(),
            };
            proof {
                assert(link_models(entry.links@) =~= Map::empty());
                assert(entry@ == bare);
            }
            repos.insert(row.id, entry);
            proof {
                assert(repo_models(repos@) =~= models.insert(id, bare));
            }
        }
        proof {
            assert(all_repos.take(all_repos.len() as int) =~= all_repos);
            assert(all_sources.take(0) =~= Seq::empty());
        }
        let ghost keep_source = |row: SourceRow| has_repo_row(all_repos, row.repo_id@);
        for row in it: source_rows
            invariant
                it.seq() == all_sources,
                all_repos == rows.repos@,
                all_sources == rows.sources@,
                keep_source == (|row: SourceRow| has_repo_row(all_repos, row.repo_id@)),
                consistent(repo_models(repos@)),
                sources_once(all_repos, all_sources.take(it.index() as int)),
                stores(
                    all_repos,
                    all_sources.take(it.index() as int).filter(keep_source),
                    Seq::empty(),
                    repo_models(repos@),
                ),
        {
            let ghost at = it.index() as int;
            let ghost models = repo_models(repos@);
            let ghost seen = all_sources.take(at);
            let ghost known = seen.filter(keep_source);
            let repo_id = row.repo_id.clone();
            proof {
                lemma_filter_next(all_sources, keep_source, at);
                if has_repo_row(all_repos, row.repo_id@) {
                    let k = choose|k: int|
                        0 <= k < all_repos.len() && (#[trigger] all_repos[k]).id@ == row.repo_id@;
                    assert(models.contains_key(all_repos[k].id@));
                }
                assert(models.contains_key(row.repo_id@) ==> has_repo_row(all_repos, row.repo_id@));
                assert(repos@.contains_key(row.repo_id@) == models.contains_key(row.repo_id@));
            }
            match repos.remove(repo_id.as_str()) {
                Some(found) => {
                    let mut entry = found;
                    let ghost links_before = entry.links@;
                    if entry.links.get(row.source.as_str()).is_some() {
                        proof {
                            assert(linked(models, row.repo_id@, row.source@));
                            let k = choose|k: int|
                                0 <= k < known.len() && (#[trigger] known[k]).repo_id@ == row.repo_id@
                                    && known[k].source@ == row.source@;
                            assert(known.contains(known[k]));
                            seen.lemma_filter_contains_rev(keep_source, known[k]);
                            let m = choose|m: int| 0 <= m < seen.len() && seen[m] == known[k];
                            assert(rows.sources@[m] == known[k]);
                            assert(rows.sources@[at] == row);
                        }
                        return Err(Error::Sql("the stored inventory is inconsistent".to_owned()));
                    }
                    proof {
                        lemma_stores_source(all_repos, known, Seq::empty(), models, row);
                        let next = all_sources.take(at + 1);
                        assert forall|i: int, j: int|
                            0 <= i < j < next.len() && next[i].repo_id@ == next[j].repo_id@
                                && next[i].source@ == next[j].source@ implies !has_repo_row(
                            all_repos,
                            next[i].repo_id@,
                        ) by {
                            assert(next[i] == seen[i]);
                            if j < at {
                                assert(next[j] == seen[j]);
                            } else if has_repo_row(all_repos, seen[i].repo_id@) {
                                seen.lemma_filter_contains(keep_source, i);
                                let k = choose|k: int| 0 <= k < known.len() && known[k] == seen[i];
                                assert(linked(models, known[k].repo_id@, known[k].source@));
                            }
                        }
                    }
                    let ghost ghost_row = row;
                    entry.links.insert(
                        row.source,
                        Link { tags_json: row.tags_json, active: row.active },
                    );
                    proof {
                        assert(link_models(entry.links@) =~= link_models(links_before).insert(
                            ghost_row.source@,
                            link_of(ghost_row),
                        ));
                    }
                    repos.insert(repo_id, entry);
                    proof {
                        assert(repo_models(repos@) =~= with_source(models, ghost_row));
                    }
                },
                None => {
                    proof {
                        assert(repo_models(repos@) =~= models);
                        let next = all_sources.take(at + 1);
                        assert forall|i: int, j: int|
                            0 <= i < j < next.len() && next[i].repo_id@ == next[j].repo_id@
                                && next[i].source@ == next[j].source@ implies !has_repo_row(
                            all_repos,
                            next[i].repo_id@,
                        ) by {
                            if j < at {
                                assert(next[i] == seen[i] && next[j] == seen[j]);
                            }
                        }
                    }
                },
            }
        }
        proof {
            assert(all_sources.take(all_sources.len() as int) =~= all_sources);
            assert(all_tags.take(0) =~= Seq::empty());
            reveal(Seq::filter);
        }
        let ghost held_sources = kept_sources(all_repos, all_sources);
        let ghost keep_tag = |row: TagRow| has_repo_row(all_repos, row.repo_id@);
        for row in it: tag_rows
            invariant
                it.seq() == all_tags,
                all_repos == rows.repos@,
                all_sources == rows.sources@,
                all_tags == rows.tags@,
                sources_once(all_repos, all_sources),
                keep_tag == (|row: TagRow| has_repo_row(all_repos, row.repo_id@)),
                consistent(repo_models(repos@)),
                stores(
                    all_repos,
                    held_sources,
                    all_tags.take(it.index() as int).filter(keep_tag),
                    repo_models(repos@),
                ),
        {
            let ghost at = it.index() as int;
            let ghost models = repo_models(repos@);
            let ghost known = all_tags.take(at).filter(keep_tag);
            let repo_id = row.repo_id.clone();
            proof {
                lemma_filter_next(all_tags, keep_tag, at);
                if has_repo_row(all_repos, row.repo_id@) {
                    let k = choose|k: int|
                        0 <= k < all_repos.len() && (#[trigger] all_repos[k]).id@ == row.repo_id@;
                    assert(models.contains_key(all_repos[k].id@));
                }
                assert(models.contains_key(row.repo_id@) ==> has_repo_row(all_repos, row.repo_id@));
                assert(repos@.contains_key(row.repo_id@) == models.contains_key(row.repo_id@));
            }
            match repos.remove(repo_id.as_str()) {
                Some(found) => {
                    let mut entry = found;
                    proof {
                        lemma_stores_tag(all_repos, held_sources, known, models, row);
                    }
                    let ghost ghost_row = row;
                    entry.detected.insert(row.tag);
                    repos.insert(repo_id, entry);
                    proof {
                        assert(repo_models(repos@) =~= with_tag(models, ghost_row));
                    }
                },
                None => {
                    proof {
                        assert(repo_models(repos@) =~= models);
                    }
                },
            }
        }
        proof {
            assert(all_tags.take(all_tags.len() as int) =~= all_tags);
            lemma_stores_sound(rows, repo_models(repos@));
        }
        Ok(State { repos })
    }

    /// The rows that hold the inventory.
    pub fn to_rows(&self) -> (rows: Rows)
        ensures
            sound(rows),
            stores(rows.repos@, rows.sources@, rows.tags@, self@),
    {
        proof {
            use_type_invariant(self);
            lemma_stores_nothing();
        }
        let mut rows = Rows { repos: Vec::new(), sources: Vec::new(), tags: Vec::new() };
        let count = self.repos.len();
        let ghost names = self.repos.names();
        let ghost mut done: Inventory = Map::empty();
        let mut i: usize = 0;
        while i < count
            invariant
                i <= count,
                count == names.len(),
                names == self.repos.names(),
                increasing(names),
                names.to_set() == self.repos@.dom(),
                stores(rows.repos@, rows.sources@, rows.tags@, done),
                forall|id: Seq<char>| #[trigger]
                    done.contains_key(id) <==> exists|j: int|
                        0 <= j < i && #[trigger] names[j] == id,
                forall|id: Seq<char>| #[trigger] done.contains_key(id) ==> done[id] == self@[id],
            decreases count - i,
        {
            let id = self.repos.name_at(i);
            let entry = self.repos.value_at(i);
            let ghost earlier = done;
            proof {
                lemma_increasing_distinct(names);
                assert(!done.contains_key(id@)) by {
                    if done.contains_key(id@) {
                        let j = choose|j: int| 0 <= j < i && #[trigger] names[j] == id@;
                        assert(names[j] != names[i as int]);
                    }
                }
                assert(self@[id@] == entry@);
            }
            let row = RepoRow {
                id: id.clone(),
                canonical_url: entry.canonical_url.clone(),
                clone_url: entry.clone_url.clone(),
                local_path: entry.local_path.clone(),
                default_branch: opt_clone(&entry.default_branch),
                active: entry.active,
                status: entry.status.clone(),
                last_error: opt_clone(&entry.last_error),
            };
            proof {
                lemma_stores_repo(rows.repos@, rows.sources@, rows.tags@, done, row);
                done = done.insert(row.id@, bare_repo(row));
            }
            rows.repos.push(row);
            let links = entry.links.len();
            let ghost sources = entry.links.names();
            let ghost models = link_models(entry.links@);
            let mut j: usize = 0;
            while j < links
                invariant
                    j <= links,
                    links == sources.len(),
                    sources == entry.links.names(),
                    models == link_models(entry.links@),
                    increasing(sources),
                    sources.to_set() == entry.links@.dom(),
                    stores(rows.repos@, rows.sources@, rows.tags@, done),
                    done.dom() == earlier.dom().insert(id@),
                    forall|other: Seq<char>| #[trigger]
                        earlier.contains_key(other) && other != id@ ==> done[other]
                            == earlier[other],
                    done[id@] == (RepoModel {
                        detected: Set::empty(),
                        links: done[id@].links,
                        ..entry@
                    }),
                    forall|x: Seq<char>| #[trigger]
                        done[id@].links.contains_key(x) <==> exists|k: int|
                            0 <= k < j && #[trigger] sources[k] == x,
                    forall|x: Seq<char>| #[trigger]
                        done[id@].links.contains_key(x) ==> done[id@].links[x] == models[x],
                decreases links - j,
            {
                let source = entry.links.name_at(j);
                let link = entry.links.value_at(j);
                let ghost before_links = done[id@].links;
                let row = SourceRow {
                    repo_id: id.clone(),
                    source: source.clone(),
                    tags_json: link.tags_json.clone(),
                    active: link.active,
                };
                proof {
                    lemma_increasing_distinct(sources);
                    assert(done.contains_key(id@));
                    assert(!linked(done, id@, source@)) by {
                        if before_links.contains_key(source@) {
                            let k = choose|k: int| 0 <= k < j && #[trigger] sources[k] == source@;
                            assert(sources[k] != sources[j as int]);
                        }
                    }
                    lemma_stores_source(rows.repos@, rows.sources@, rows.tags@, done, row);
                    done = with_source(done, row);
                    assert(done.dom() =~= earlier.dom().insert(id@));
                    assert forall|x: Seq<char>| #[trigger]
                        done[id@].links.contains_key(x) <==> exists|k: int|
                            0 <= k < j + 1 && #[trigger] sources[k] == x by {
                        if done[id@].links.contains_key(x) {
                            if before_links.contains_key(x) {
                                let k = choose|k: int| 0 <= k < j && #[trigger] sources[k] == x;
                                assert(sources[k] == x);
                            } else {
                                assert(sources[j as int] == x);
                            }
                        }
                    }
                }
                rows.sources.push(row);
                j += 1;
            }
            proof {
                assert forall|x: Seq<char>| done[id@].links.contains_key(x)
                    == models.contains_key(x) by {
                    if models.contains_key(x) {
                        assert(sources.to_set().contains(x));
                        let k = sources.index_of(x);
                        assert(sources[k] == x);
                    }
                    if done[id@].links.contains_key(x) {
                        let k = choose|k: int| 0 <= k < links && #[trigger] sources[k] == x;
                        assert(sources.contains(sources[k]));
                        assert(sources.to_set().contains(x));
                    }
                }
                assert(done[id@].links =~= models);
            }
            let tags = entry.detected.to_list();
            let ghost all = texts(tags@);
            let mut k: usize = 0;
            proof {
                assert(all.take(0).to_set() =~= Set::empty());
            }
            while k < tags.len()
                invariant
                    k <= tags@.len(),
                    all == texts(tags@),
                    stores(rows.repos@, rows.sources@, rows.tags@, done),
                    done.dom() == earlier.dom().insert(id@),
                    forall|other: Seq<char>| #[trigger]
                        earlier.contains_key(other) && other != id@ ==> done[other]
                            == earlier[other],
                    done[id@] == (RepoModel { detected: all.take(k as int).to_set(), ..entry@ }),
                decreases tags@.len() - k,
            {
                let row = TagRow { repo_id: id.clone(), tag: tags[k].clone() };
                proof {
                    assert(done.contains_key(id@));
                    lemma_stores_tag(rows.repos@, rows.sources@, rows.tags@, done, row);
                    done = with_tag(done, row);
                    assert(done.dom() =~= earlier.dom().insert(id@));
                    assert(all.take(k + 1) =~= all.take(k as int).push(all[k as int]));
                    all.take(k as int).lemma_push_to_set_commute(all[k as int]);
                }
                rows.tags.push(row);
                k += 1;
            }
            proof {
                assert(all.take(all.len() as int) =~= all);
                assert(done[id@] == entry@);
                assert forall|x: Seq<char>| #[trigger] done.contains_key(x) <==> exists|j: int|
                    0 <= j < i + 1 && #[trigger] names[j] == x by {
                    if done.contains_key(x) {
                        if earlier.contains_key(x) {
                            let j = choose|j: int| 0 <= j < i && #[trigger] names[j] == x;
                            assert(names[j] == x);
                        } else {
                            assert(names[i as int] == x);
                        }
                    }
                }
            }
            i += 1;
        }
        proof {
            assert forall|id: Seq<char>| done.contains_key(id) == self@.contains_key(id) by {
                if self@.contains_key(id) {
                    assert(names.to_set().contains(id));
                    let j = names.index_of(id);
                    assert(names[j] == id);
                }
                if done.contains_key(id) {
                    let j = choose|j: int| 0 <= j < count && #[trigger] names[j] == id;
                    assert(names.contains(names[j]));
                    assert(names.to_set().contains(id));
                }
            }
            assert(done =~= self@);
            lemma_stores_sound(rows, self@);
        }
        rows
    }
}

}
