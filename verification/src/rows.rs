//! The tables in which the inventory is stored.

use vstd::prelude::*;

use crate::inventory::{Inventory, LinkModel, RepoModel, consistent, linked};
use crate::text::opt_text;

verus! {

/// A row of the table of repositories.
#[derive(Debug)]
pub struct RepoRow {
    pub id: String,
    pub canonical_url: String,
    pub clone_url: String,
    pub local_path: String,
    pub default_branch: Option<String>,
    pub active: bool,
    pub status: String,
    pub last_error: Option<String>,
}

/// A row of the table of what sources say of repositories.
#[derive(Debug)]
pub struct SourceRow {
    pub repo_id: String,
    pub source: String,
    pub tags_json: String,
    pub active: bool,
}

/// A row of the table of the languages found in repositories.
#[derive(Debug)]
pub struct TagRow {
    pub repo_id: String,
    pub tag: String,
}

/// The rows of the tables in which an inventory is stored.
#[derive(Debug)]
pub struct Rows {
    pub repos: Vec<RepoRow>,
    pub sources: Vec<SourceRow>,
    pub tags: Vec<TagRow>,
}

/// The repository of a row, before anything is said of it.
pub open spec fn bare_repo(row: RepoRow) -> RepoModel {
    RepoModel {
        canonical_url: row.canonical_url@,
        clone_url: row.clone_url@,
        local_path: row.local_path@,
        default_branch: opt_text(row.default_branch),
        active: row.active,
        status: row.status@,
        last_error: opt_text(row.last_error),
        detected: Set::empty(),
        links: Map::empty(),
    }
}

/// What a row says of a repository.
pub open spec fn link_of(row: SourceRow) -> LinkModel {
    LinkModel { tags_json: row.tags_json@, active: row.active }
}

/// Whether the rows of repositories are those of an inventory, each once.
pub open spec fn repo_rows_of(rows: Seq<RepoRow>, repos: Inventory) -> bool {
    &&& forall|i: int, j: int| 0 <= i < j < rows.len() ==> rows[i].id@ != rows[j].id@
    &&& forall|i: int|
        0 <= i < rows.len() ==> {
            &&& repos.contains_key((#[trigger] rows[i]).id@)
            &&& bare_repo(rows[i]) == (RepoModel {
                detected: Set::empty(),
                links: Map::empty(),
                ..repos[rows[i].id@]
            })
        }
    &&& forall|id: Seq<char>| #[trigger]
        repos.contains_key(id) ==> exists|i: int|
            0 <= i < rows.len() && (#[trigger] rows[i]).id@ == id
}

/// Whether the rows of what sources say are those of an inventory, each once.
pub open spec fn source_rows_of(rows: Seq<SourceRow>, repos: Inventory) -> bool {
    &&& forall|i: int, j: int|
        0 <= i < j < rows.len() ==> rows[i].repo_id@ != rows[j].repo_id@ || rows[i].source@
            != rows[j].source@
    &&& forall|i: int|
        0 <= i < rows.len() ==> {
            &&& linked(repos, (#[trigger] rows[i]).repo_id@, rows[i].source@)
            &&& link_of(rows[i]) == repos[rows[i].repo_id@].links[rows[i].source@]
        }
    &&& forall|id: Seq<char>, source: Seq<char>| #[trigger]
        linked(repos, id, source) ==> exists|i: int|
            0 <= i < rows.len() && (#[trigger] rows[i]).repo_id@ == id && rows[i].source@ == source
}

/// Whether a tag was found in a repository of an inventory.
pub open spec fn detected_in(repos: Inventory, id: Seq<char>, tag: Seq<char>) -> bool {
    repos.contains_key(id) && repos[id].detected.contains(tag)
}

/// Whether the rows of tags are those of an inventory.
pub open spec fn tag_rows_of(rows: Seq<TagRow>, repos: Inventory) -> bool {
    &&& forall|i: int|
        0 <= i < rows.len() ==> detected_in(repos, (#[trigger] rows[i]).repo_id@, rows[i].tag@)
    &&& forall|id: Seq<char>, tag: Seq<char>| #[trigger]
        detected_in(repos, id, tag) ==> exists|i: int|
            0 <= i < rows.len() && (#[trigger] rows[i]).repo_id@ == id && rows[i].tag@ == tag
}

/// Whether rows are those of an inventory.
pub open spec fn stores(
    repo_rows: Seq<RepoRow>,
    source_rows: Seq<SourceRow>,
    tag_rows: Seq<TagRow>,
    repos: Inventory,
) -> bool {
    &&& repo_rows_of(repo_rows, repos)
    &&& source_rows_of(source_rows, repos)
    &&& tag_rows_of(tag_rows, repos)
}

/// Whether there is a row of a repository.
pub open spec fn has_repo_row(rows: Seq<RepoRow>, id: Seq<char>) -> bool {
    exists|i: int| 0 <= i < rows.len() && (#[trigger] rows[i]).id@ == id
}

/// The rows of what sources say of repositories that are there.
pub open spec fn kept_sources(repos: Seq<RepoRow>, rows: Seq<SourceRow>) -> Seq<SourceRow> {
    rows.filter(|row: SourceRow| has_repo_row(repos, row.repo_id@))
}

/// The rows of the tags of repositories that are there.
pub open spec fn kept_tags(repos: Seq<RepoRow>, rows: Seq<TagRow>) -> Seq<TagRow> {
    rows.filter(|row: TagRow| has_repo_row(repos, row.repo_id@))
}

/// Whether rows hold an inventory: what they say of repositories that are not
/// there is left out.
pub open spec fn holds(rows: Rows, repos: Inventory) -> bool {
    stores(
        rows.repos@,
        kept_sources(rows.repos@, rows.sources@),
        kept_tags(rows.repos@, rows.tags@),
        repos,
    )
}

/// Whether a source speaks at most once of a repository that is there.
pub open spec fn sources_once(repos: Seq<RepoRow>, rows: Seq<SourceRow>) -> bool {
    forall|i: int, j: int|
        0 <= i < j < rows.len() && rows[i].repo_id@ == rows[j].repo_id@ && rows[i].source@
            == rows[j].source@ ==> !has_repo_row(repos, rows[i].repo_id@)
}

/// Whether the rows keep the constraints of the tables: no two repositories
/// share an identifier, a remote or a working tree, and a source speaks at most
/// once of a repository.
pub open spec fn sound(rows: Rows) -> bool {
    &&& forall|i: int, j: int|
        0 <= i < j < rows.repos@.len() ==> {
            &&& rows.repos@[i].id@ != rows.repos@[j].id@
            &&& rows.repos@[i].canonical_url@ != rows.repos@[j].canonical_url@
            &&& rows.repos@[i].local_path@ != rows.repos@[j].local_path@
        }
    &&& sources_once(rows.repos@, rows.sources@)
}

/// A row that meets a condition stays, and another does not.
pub proof fn lemma_filter_next<T>(rows: Seq<T>, keep: spec_fn(T) -> bool, at: int)
    requires
        0 <= at < rows.len(),
    ensures
        rows.take(at + 1).filter(keep) == if keep(rows[at]) {
            rows.take(at).filter(keep).push(rows[at])
        } else {
            rows.take(at).filter(keep)
        },
{
    reveal(Seq::filter);
    assert(rows.take(at + 1).drop_last() =~= rows.take(at));
}

/// If all rows meet a condition, all of them stay.
pub proof fn lemma_filter_all<T>(rows: Seq<T>, keep: spec_fn(T) -> bool)
    requires
        forall|i: int| 0 <= i < rows.len() ==> keep(#[trigger] rows[i]),
    ensures
        rows.filter(keep) == rows,
    decreases rows.len(),
{
    reveal(Seq::filter);
    if rows.len() > 0 {
        let earlier = rows.drop_last();
        assert forall|i: int| 0 <= i < earlier.len() implies keep(#[trigger] earlier[i]) by {
            assert(earlier[i] == rows[i]);
        }
        lemma_filter_all(earlier, keep);
        assert(keep(rows[rows.len() - 1]));
        assert(earlier.push(rows.last()) =~= rows);
    }
}

/// The rows of an inventory only speak of repositories that are there.
pub proof fn lemma_stored_is_held(rows: Rows, repos: Inventory)
    requires
        stores(rows.repos@, rows.sources@, rows.tags@, repos),
    ensures
        kept_sources(rows.repos@, rows.sources@) == rows.sources@,
        kept_tags(rows.repos@, rows.tags@) == rows.tags@,
        holds(rows, repos),
{
    assert forall|i: int| 0 <= i < rows.sources@.len() implies has_repo_row(
        rows.repos@,
        (#[trigger] rows.sources@[i]).repo_id@,
    ) by {
        assert(linked(repos, rows.sources@[i].repo_id@, rows.sources@[i].source@));
        assert(repos.contains_key(rows.sources@[i].repo_id@));
    }
    lemma_filter_all(
        rows.sources@,
        |row: SourceRow| has_repo_row(rows.repos@, row.repo_id@),
    );
    assert forall|i: int| 0 <= i < rows.tags@.len() implies has_repo_row(
        rows.repos@,
        (#[trigger] rows.tags@[i]).repo_id@,
    ) by {
        assert(detected_in(repos, rows.tags@[i].repo_id@, rows.tags@[i].tag@));
        assert(repos.contains_key(rows.tags@[i].repo_id@));
    }
    lemma_filter_all(rows.tags@, |row: TagRow| has_repo_row(rows.repos@, row.repo_id@));
}

/// The empty inventory has no rows.
pub proof fn lemma_stores_nothing()
    ensures
        stores(Seq::empty(), Seq::empty(), Seq::empty(), Map::empty()),
{
}

/// One more repository, of which nothing is said yet, is one more row.
pub proof fn lemma_stores_repo(
    repo_rows: Seq<RepoRow>,
    source_rows: Seq<SourceRow>,
    tag_rows: Seq<TagRow>,
    repos: Inventory,
    row: RepoRow,
)
    requires
        stores(repo_rows, source_rows, tag_rows, repos),
        !repos.contains_key(row.id@),
    ensures
        stores(
            repo_rows.push(row),
            source_rows,
            tag_rows,
            repos.insert(row.id@, bare_repo(row)),
        ),
{
    let after = repos.insert(row.id@, bare_repo(row));
    let rows = repo_rows.push(row);
    assert forall|id: Seq<char>| #[trigger] after.contains_key(id) implies exists|i: int|
        0 <= i < rows.len() && (#[trigger] rows[i]).id@ == id by {
        if id == row.id@ {
            assert(rows[repo_rows.len() as int].id@ == id);
        } else {
            assert(repos.contains_key(id));
            let i = choose|i: int|
                0 <= i < repo_rows.len() && (#[trigger] repo_rows[i]).id@ == id;
            assert(rows[i].id@ == id);
        }
    }
    assert forall|i: int| 0 <= i < rows.len() implies {
        &&& after.contains_key((#[trigger] rows[i]).id@)
        &&& bare_repo(rows[i]) == (RepoModel {
            detected: Set::empty(),
            links: Map::empty(),
            ..after[rows[i].id@]
        })
    } by {
        if i < repo_rows.len() {
            assert(rows[i] == repo_rows[i]);
            assert(repos.contains_key(repo_rows[i].id@));
        }
    }
    assert forall|i: int, j: int| 0 <= i < j < rows.len() implies rows[i].id@ != rows[j].id@ by {
        assert(rows[i] == repo_rows[i]);
        assert(repos.contains_key(repo_rows[i].id@));
        if j < repo_rows.len() {
            assert(rows[j] == repo_rows[j]);
        }
    }
    assert forall|i: int| 0 <= i < source_rows.len() implies {
        &&& linked(after, (#[trigger] source_rows[i]).repo_id@, source_rows[i].source@)
        &&& link_of(source_rows[i])
            == after[source_rows[i].repo_id@].links[source_rows[i].source@]
    } by {
        assert(linked(repos, source_rows[i].repo_id@, source_rows[i].source@));
    }
    assert forall|id: Seq<char>, source: Seq<char>| #[trigger] linked(after, id, source) implies exists|
        i: int,
    |
        0 <= i < source_rows.len() && (#[trigger] source_rows[i]).repo_id@ == id
            && source_rows[i].source@ == source by {
        assert(linked(repos, id, source));
    }
    assert forall|i: int| 0 <= i < tag_rows.len() implies detected_in(
        after,
        (#[trigger] tag_rows[i]).repo_id@,
        tag_rows[i].tag@,
    ) by {
        assert(detected_in(repos, tag_rows[i].repo_id@, tag_rows[i].tag@));
    }
    assert forall|id: Seq<char>, tag: Seq<char>| #[trigger] detected_in(after, id, tag) implies exists|
        i: int,
    |
        0 <= i < tag_rows.len() && (#[trigger] tag_rows[i]).repo_id@ == id && tag_rows[i].tag@
            == tag by {
        assert(detected_in(repos, id, tag));
    }
}

/// The inventory once one more row says something of a repository.
pub open spec fn with_source(repos: Inventory, row: SourceRow) -> Inventory {
    repos.insert(
        row.repo_id@,
        RepoModel {
            links: repos[row.repo_id@].links.insert(row.source@, link_of(row)),
            ..repos[row.repo_id@]
        },
    )
}

/// One more thing that a source says is one more row.
pub proof fn lemma_stores_source(
    repo_rows: Seq<RepoRow>,
    source_rows: Seq<SourceRow>,
    tag_rows: Seq<TagRow>,
    repos: Inventory,
    row: SourceRow,
)
    requires
        stores(repo_rows, source_rows, tag_rows, repos),
        repos.contains_key(row.repo_id@),
        !linked(repos, row.repo_id@, row.source@),
    ensures
        stores(repo_rows, source_rows.push(row), tag_rows, with_source(repos, row)),
{
    let after = with_source(repos, row);
    let rows = source_rows.push(row);
    assert forall|id: Seq<char>| #[trigger] after.contains_key(id) implies exists|i: int|
        0 <= i < repo_rows.len() && (#[trigger] repo_rows[i]).id@ == id by {
        assert(repos.contains_key(id));
    }
    assert forall|i: int| 0 <= i < rows.len() implies {
        &&& linked(after, (#[trigger] rows[i]).repo_id@, rows[i].source@)
        &&& link_of(rows[i]) == after[rows[i].repo_id@].links[rows[i].source@]
    } by {
        if i < source_rows.len() {
            assert(rows[i] == source_rows[i]);
            assert(linked(repos, source_rows[i].repo_id@, source_rows[i].source@));
        }
    }
    assert forall|i: int, j: int| 0 <= i < j < rows.len() implies rows[i].repo_id@
        != rows[j].repo_id@ || rows[i].source@ != rows[j].source@ by {
        assert(rows[i] == source_rows[i]);
        assert(linked(repos, source_rows[i].repo_id@, source_rows[i].source@));
        if j < source_rows.len() {
            assert(rows[j] == source_rows[j]);
        }
    }
    assert forall|id: Seq<char>, source: Seq<char>| #[trigger] linked(after, id, source) implies exists|
        i: int,
    |
        0 <= i < rows.len() && (#[trigger] rows[i]).repo_id@ == id && rows[i].source@ == source by {
        if id == row.repo_id@ && source == row.source@ {
            assert(rows[source_rows.len() as int].repo_id@ == id);
        } else {
            assert(linked(repos, id, source));
            let i = choose|i: int|
                0 <= i < source_rows.len() && (#[trigger] source_rows[i]).repo_id@ == id
                    && source_rows[i].source@ == source;
            assert(rows[i] == source_rows[i]);
        }
    }
    assert forall|i: int| 0 <= i < tag_rows.len() implies detected_in(
        after,
        (#[trigger] tag_rows[i]).repo_id@,
        tag_rows[i].tag@,
    ) by {
        assert(detected_in(repos, tag_rows[i].repo_id@, tag_rows[i].tag@));
    }
    assert forall|id: Seq<char>, tag: Seq<char>| #[trigger] detected_in(after, id, tag) implies exists|
        i: int,
    |
        0 <= i < tag_rows.len() && (#[trigger] tag_rows[i]).repo_id@ == id && tag_rows[i].tag@
            == tag by {
        assert(detected_in(repos, id, tag));
    }
}

/// The inventory once one more row gives a repository a tag.
pub open spec fn with_tag(repos: Inventory, row: TagRow) -> Inventory {
    repos.insert(
        row.repo_id@,
        RepoModel {
            detected: repos[row.repo_id@].detected.insert(row.tag@),
            ..repos[row.repo_id@]
        },
    )
}

/// One more tag is one more row.
pub proof fn lemma_stores_tag(
    repo_rows: Seq<RepoRow>,
    source_rows: Seq<SourceRow>,
    tag_rows: Seq<TagRow>,
    repos: Inventory,
    row: TagRow,
)
    requires
        stores(repo_rows, source_rows, tag_rows, repos),
        repos.contains_key(row.repo_id@),
    ensures
        stores(repo_rows, source_rows, tag_rows.push(row), with_tag(repos, row)),
{
    let after = with_tag(repos, row);
    let rows = tag_rows.push(row);
    assert forall|id: Seq<char>| #[trigger] after.contains_key(id) implies exists|i: int|
        0 <= i < repo_rows.len() && (#[trigger] repo_rows[i]).id@ == id by {
        assert(repos.contains_key(id));
    }
    assert forall|i: int| 0 <= i < source_rows.len() implies {
        &&& linked(after, (#[trigger] source_rows[i]).repo_id@, source_rows[i].source@)
        &&& link_of(source_rows[i])
            == after[source_rows[i].repo_id@].links[source_rows[i].source@]
    } by {
        assert(linked(repos, source_rows[i].repo_id@, source_rows[i].source@));
    }
    assert forall|id: Seq<char>, source: Seq<char>| #[trigger] linked(after, id, source) implies exists|
        i: int,
    |
        0 <= i < source_rows.len() && (#[trigger] source_rows[i]).repo_id@ == id
            && source_rows[i].source@ == source by {
        assert(linked(repos, id, source));
    }
    assert forall|i: int| 0 <= i < rows.len() implies detected_in(
        after,
        (#[trigger] rows[i]).repo_id@,
        rows[i].tag@,
    ) by {
        if i < tag_rows.len() {
            assert(rows[i] == tag_rows[i]);
            assert(detected_in(repos, tag_rows[i].repo_id@, tag_rows[i].tag@));
        }
    }
    assert forall|id: Seq<char>, tag: Seq<char>| #[trigger] detected_in(after, id, tag) implies exists|
        i: int,
    |
        0 <= i < rows.len() && (#[trigger] rows[i]).repo_id@ == id && rows[i].tag@ == tag by {
        if id == row.repo_id@ && tag == row.tag@ {
            assert(rows[tag_rows.len() as int].repo_id@ == id);
        } else {
            assert(detected_in(repos, id, tag));
            let i = choose|i: int|
                0 <= i < tag_rows.len() && (#[trigger] tag_rows[i]).repo_id@ == id
                    && tag_rows[i].tag@ == tag;
            assert(rows[i] == tag_rows[i]);
        }
    }
}

/// The rows of an inventory hold all of it: an inventory that is read from them
/// is the one that was stored.
pub proof fn law_rows_hold_the_inventory(
    rows: Rows,
    stored: Inventory,
    loaded: Inventory,
)
    requires
        stores(rows.repos@, rows.sources@, rows.tags@, stored),
        holds(rows, loaded),
    ensures
        loaded == stored,
{
    lemma_stored_is_held(rows, stored);
    assert forall|id: Seq<char>| stored.contains_key(id) == loaded.contains_key(id) by {
        if stored.contains_key(id) {
            let i = choose|i: int|
                0 <= i < rows.repos@.len() && (#[trigger] rows.repos@[i]).id@ == id;
            assert(loaded.contains_key(rows.repos@[i].id@));
        }
        if loaded.contains_key(id) {
            let i = choose|i: int|
                0 <= i < rows.repos@.len() && (#[trigger] rows.repos@[i]).id@ == id;
            assert(stored.contains_key(rows.repos@[i].id@));
        }
    }
    assert forall|id: Seq<char>| stored.contains_key(id) implies loaded[id] == stored[id] by {
        let i = choose|i: int| 0 <= i < rows.repos@.len() && (#[trigger] rows.repos@[i]).id@ == id;
        assert(bare_repo(rows.repos@[i]) == (RepoModel {
            detected: Set::empty(),
            links: Map::empty(),
            ..stored[id]
        }));
        assert(bare_repo(rows.repos@[i]) == (RepoModel {
            detected: Set::empty(),
            links: Map::empty(),
            ..loaded[id]
        }));
        let s = stored[id];
        let l = loaded[id];
        assert forall|source: Seq<char>| s.links.contains_key(source) == l.links.contains_key(
            source,
        ) by {
            if s.links.contains_key(source) {
                assert(linked(stored, id, source));
                let k = choose|k: int|
                    0 <= k < rows.sources@.len() && (#[trigger] rows.sources@[k]).repo_id@ == id
                        && rows.sources@[k].source@ == source;
                assert(linked(loaded, rows.sources@[k].repo_id@, rows.sources@[k].source@));
            }
            if l.links.contains_key(source) {
                assert(linked(loaded, id, source));
                let k = choose|k: int|
                    0 <= k < rows.sources@.len() && (#[trigger] rows.sources@[k]).repo_id@ == id
                        && rows.sources@[k].source@ == source;
                assert(linked(stored, rows.sources@[k].repo_id@, rows.sources@[k].source@));
            }
        }
        assert forall|source: Seq<char>| s.links.contains_key(source) implies s.links[source]
            == l.links[source] by {
            assert(linked(stored, id, source));
            let k = choose|k: int|
                0 <= k < rows.sources@.len() && (#[trigger] rows.sources@[k]).repo_id@ == id
                    && rows.sources@[k].source@ == source;
            assert(link_of(rows.sources@[k]) == s.links[source]);
            assert(link_of(rows.sources@[k]) == l.links[source]);
        }
        assert(s.links =~= l.links);
        assert forall|tag: Seq<char>| s.detected.contains(tag) == l.detected.contains(tag) by {
            if s.detected.contains(tag) {
                assert(detected_in(stored, id, tag));
                let k = choose|k: int|
                    0 <= k < rows.tags@.len() && (#[trigger] rows.tags@[k]).repo_id@ == id
                        && rows.tags@[k].tag@ == tag;
                assert(detected_in(loaded, rows.tags@[k].repo_id@, rows.tags@[k].tag@));
            }
            if l.detected.contains(tag) {
                assert(detected_in(loaded, id, tag));
                let k = choose|k: int|
                    0 <= k < rows.tags@.len() && (#[trigger] rows.tags@[k]).repo_id@ == id
                        && rows.tags@[k].tag@ == tag;
                assert(detected_in(stored, rows.tags@[k].repo_id@, rows.tags@[k].tag@));
            }
        }
        assert(s.detected =~= l.detected);
    }
    assert(loaded =~= stored);
}

/// Rows of repositories without shared remotes or working trees are sound.
pub proof fn lemma_stores_sound(rows: Rows, repos: Inventory)
    requires
        repo_rows_of(rows.repos@, repos),
        sources_once(rows.repos@, rows.sources@),
        consistent(repos),
    ensures
        sound(rows),
{
    assert forall|i: int, j: int| 0 <= i < j < rows.repos@.len() implies {
        &&& rows.repos@[i].id@ != rows.repos@[j].id@
        &&& rows.repos@[i].canonical_url@ != rows.repos@[j].canonical_url@
        &&& rows.repos@[i].local_path@ != rows.repos@[j].local_path@
    } by {
        assert(repos.contains_key(rows.repos@[i].id@));
        assert(repos.contains_key(rows.repos@[j].id@));
        assert(bare_repo(rows.repos@[i]).canonical_url
            == repos[rows.repos@[i].id@].canonical_url);
        assert(bare_repo(rows.repos@[j]).canonical_url
            == repos[rows.repos@[j].id@].canonical_url);
        assert(bare_repo(rows.repos@[i]).local_path == repos[rows.repos@[i].id@].local_path);
        assert(bare_repo(rows.repos@[j]).local_path == repos[rows.repos@[j].id@].local_path);
    }
}

}
