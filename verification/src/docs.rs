//! The wiki: pages, folders and live editing.

use crate::json::{json_member, read_member, value_view, Json, JsonView};
use crate::lists::{
    collect, collected_has_source, keep_marked, kept_is_filtered, marked_is_collected,
    source_is_collected,
};
use crate::reply::{internal_error, not_found, plain, Refusal};
use crate::text::{
    ascii_lower, decimal_wide, is_blank, join2, join3, owned, same, spec_ascii_lower, spec_decimal,
    spec_split, spec_starts, spec_trim, spec_trim_char, split, split_nonempty, split_of_joined, split_without,
    starts_with, texts, trimming_cuts_the_character_alone,
    trim, trim_char,
};
use vstd::prelude::*;

verus! {

/// A page of the wiki.
#[derive(Clone, Debug)]
pub struct DocPage {
    pub id: String,
    pub folder: String,
    pub category: String,
    pub title: String,
    pub body: String,
    pub updated_at: String,
    pub updated_by: String,
}

impl DocPage {
    fn copy(&self) -> (r: DocPage)
        ensures
            r == *self,
    {
        DocPage {
            id: self.id.clone(),
            folder: self.folder.clone(),
            category: self.category.clone(),
            title: self.title.clone(),
            body: self.body.clone(),
            updated_at: self.updated_at.clone(),
            updated_by: self.updated_by.clone(),
        }
    }
}

/// The colour bucket that the top folder of a path names.
pub open spec fn bucket(top: Seq<char>) -> Seq<char> {
    if top == "technical"@ || top == "architecture"@ || top == "engineering"@ {
        "technical"@
    } else if top == "flows"@ || top == "design"@ {
        "flows"@
    } else if top == "testing"@ || top == "qa"@ || top == "test"@ || top == "tests"@ {
        "qa"@
    } else if top == "operations"@ || top == "ops"@ || top == "release notes"@ || top
        == "releases"@ {
        "ops"@
    } else {
        "product"@
    }
}

pub open spec fn category_of(folder: Seq<char>) -> Seq<char> {
    bucket(spec_ascii_lower(spec_trim(spec_split(folder, '/')[0])))
}

/// The colour bucket of a folder path.
pub fn doc_category(folder: &str) -> (r: &'static str)
    ensures
        r@ == category_of(folder@),
{
    let parts = split(folder, '/');
    proof {
        split_nonempty(folder@, '/');
        assert(texts(parts@)[0] == parts@[0]@);
    }
    let t = trim(parts[0].as_str());
    let low = ascii_lower(t.as_str());
    let top = low.as_str();
    if same(top, "technical") || same(top, "architecture") || same(top, "engineering") {
        "technical"
    } else if same(top, "flows") || same(top, "design") {
        "flows"
    } else if same(top, "testing") || same(top, "qa") || same(top, "test") || same(top, "tests") {
        "qa"
    } else if same(top, "operations") || same(top, "ops") || same(top, "release notes") || same(
        top,
        "releases",
    ) {
        "ops"
    } else {
        "product"
    }
}

/// The id of a page that is created at that instant (in nanoseconds since the epoch).
pub fn mint_doc_id(nanos: u128) -> (r: String)
    ensures
        r@ == "doc-"@ + spec_decimal(nanos as nat),
{
    let n = decimal_wide(nanos);
    join2("doc-", n.as_str())
}

/// The position of the first page with that id, from `i` on.
pub open spec fn page_at(pages: Seq<DocPage>, id: Seq<char>, i: int) -> Option<int>
    decreases pages.len() - i,
{
    if i < 0 || i >= pages.len() {
        None
    } else if pages[i].id@ == id {
        Some(i)
    } else {
        page_at(pages, id, i + 1)
    }
}

/// The pages with one more, in place of the page of the same id where there is one.
pub open spec fn with_page(pages: Seq<DocPage>, p: DocPage) -> Seq<DocPage> {
    match page_at(pages, p.id@, 0) {
        Some(i) => pages.update(i, p),
        None => pages.push(p),
    }
}

/// The pages of a project and those of the page store, which win.
pub open spec fn merged(pages: Seq<DocPage>, stored: Seq<DocPage>) -> Seq<DocPage>
    decreases stored.len(),
{
    if stored.len() == 0 {
        pages
    } else {
        with_page(merged(pages, stored.drop_last()), stored.last())
    }
}

proof fn page_at_is_first(pages: Seq<DocPage>, id: Seq<char>, i: int)
    requires
        0 <= i <= pages.len(),
    ensures
        match page_at(pages, id, i) {
            Some(k) => i <= k < pages.len() && pages[k].id@ == id,
            None => forall|k: int| i <= k < pages.len() ==> (#[trigger] pages[k]).id@ != id,
        },
    decreases pages.len() - i,
{
    if i < pages.len() && pages[i].id@ != id {
        page_at_is_first(pages, id, i + 1);
    }
}

fn find_page(pages: &Vec<DocPage>, id: &str) -> (r: Option<usize>)
    ensures
        match r {
            Some(i) => i < pages.len() && page_at(pages@, id@, 0) == Some(i as int),
            None => page_at(pages@, id@, 0) is None,
        },
{
    let mut i: usize = 0;
    while i < pages.len()
        invariant
            i <= pages.len(),
            page_at(pages@, id@, 0) == page_at(pages@, id@, i as int),
        decreases pages.len() - i,
    {
        if same(pages[i].id.as_str(), id) {
            return Some(i);
        }
        i += 1;
    }
    None
}

/// Lists the wiki: what the agents wrote into the project and what people keep in the page store,
/// each page once.
pub fn merge_pages(pages: Vec<DocPage>, stored: &Vec<DocPage>) -> (r: Vec<DocPage>)
    ensures
        r@ == merged(pages@, stored@),
{
    let ghost start = pages@;
    let mut r = pages;
    let mut i: usize = 0;
    assert(stored@.take(0) =~= Seq::empty());
    while i < stored.len()
        invariant
            i <= stored.len(),
            r@ == merged(start, stored@.take(i as int)),
        decreases stored.len() - i,
    {
        assert(stored@.take(i + 1).drop_last() =~= stored@.take(i as int));
        let p = stored[i].copy();
        match find_page(&r, stored[i].id.as_str()) {
            Some(k) => {
                r.set(k, p);
            },
            None => {
                r.push(p);
            },
        }
        i += 1;
    }
    assert(stored@.take(stored@.len() as int) =~= stored@);
    r
}

/// Stores a page: in place of the page of the same id where there is one, else last.
pub fn put_page(pages: &mut Vec<DocPage>, p: DocPage)
    ensures
        final(pages)@ == with_page(old(pages)@, p),
{
    match find_page(pages, p.id.as_str()) {
        Some(i) => {
            pages.set(i, p);
        },
        None => {
            pages.push(p);
        },
    }
}

pub open spec fn other_page(id: Seq<char>) -> spec_fn(DocPage) -> Option<DocPage> {
    |p: DocPage|
        if p.id@ != id {
            Some(p)
        } else {
            None
        }
}

/// Deletes a page; tells whether there was one.
pub fn drop_page(pages: &mut Vec<DocPage>, id: &str) -> (removed: bool)
    ensures
        removed == (page_at(old(pages)@, id@, 0) is Some),
        final(pages)@ == collect(old(pages)@, other_page(id@)),
{
    let removed = find_page(pages, id).is_some();
    let ghost f = other_page(id@);
    let mut keep: Vec<bool> = Vec::new();
    let mut i: usize = 0;
    while i < pages.len()
        invariant
            i <= pages.len(),
            keep.len() == i,
            pages@ == old(pages)@,
            forall|j: int| 0 <= j < i ==> keep@[j] == ((#[trigger] pages@[j]).id@ != id@),
        decreases pages.len() - i,
    {
        keep.push(!same(pages[i].id.as_str(), id));
        i += 1;
    }
    proof {
        marked_is_collected(pages@, keep@, f);
    }
    keep_marked(pages, &keep);
    removed
}

/// The page that a reader gets: that of the page store where it has one, else the project's own.
pub open spec fn shown_page(stored: Option<DocPage>, pages: Seq<DocPage>, id: Seq<char>) -> Option<
    DocPage,
> {
    if stored is Some {
        stored
    } else {
        match page_at(pages, id, 0) {
            Some(i) => Some(pages[i]),
            None => None,
        }
    }
}

/// Finds one page.
pub fn pick_page(stored: Option<DocPage>, pages: &Vec<DocPage>, id: &str) -> (r: Option<DocPage>)
    ensures
        r == shown_page(stored, pages@, id@),
{
    match stored {
        Some(p) => Some(p),
        None => match find_page(pages, id) {
            Some(i) => Some(pages[i].copy()),
            None => None,
        },
    }
}

/// What was saved is what is read: the page of that id is the one that was stored last, and the
/// other pages are as they were.
pub proof fn a_saved_page_is_read_back(pages: Seq<DocPage>, p: DocPage, other: Seq<char>)
    ensures
        shown_page(None, with_page(pages, p), p.id@) == Some(p),
        other != p.id@ ==> shown_page(None, with_page(pages, p), other) == shown_page(
            None,
            pages,
            other,
        ),
{
    let w = with_page(pages, p);
    page_at_is_first(pages, p.id@, 0);
    saving_keeps_places(pages, p, p.id@, 0);
    saving_keeps_places(pages, p, other, 0);
    page_at_is_first(w, p.id@, 0);
    page_at_is_first(pages, other, 0);
}

proof fn saving_keeps_places(pages: Seq<DocPage>, p: DocPage, id: Seq<char>, i: int)
    requires
        0 <= i <= pages.len(),
        match page_at(pages, p.id@, 0) {
            Some(k) => 0 <= k < pages.len() && pages[k].id@ == p.id@,
            None => forall|k: int| 0 <= k < pages.len() ==> (#[trigger] pages[k]).id@ != p.id@,
        },
    ensures
        page_at(with_page(pages, p), id, i) == if page_at(pages, p.id@, 0) is None && id == p.id@ {
            Some(pages.len() as int)
        } else {
            page_at(pages, id, i)
        },
    decreases pages.len() - i,
{
    let w = with_page(pages, p);
    if i < pages.len() {
        assert(w[i].id@ == pages[i].id@);
        saving_keeps_places(pages, p, id, i + 1);
    } else if page_at(pages, p.id@, 0) is None {
        assert(w[i] == p);
        assert(page_at(w, id, i + 1) is None);
    }
}

/// A page that was deleted is not found any more, and no other page went with it.
pub proof fn a_deleted_page_is_gone(pages: Seq<DocPage>, id: Seq<char>, other: Seq<char>)
    ensures
        !lists_page(collect(pages, other_page(id)), id),
        other != id ==> lists_page(collect(pages, other_page(id)), other) == lists_page(
            pages,
            other,
        ),
{
    let f = other_page(id);
    let left = collect(pages, f);
    if lists_page(left, id) {
        let k = choose|k: int| 0 <= k < left.len() && (#[trigger] left[k]).id@ == id;
        collected_has_source(pages, f, k);
    }
    if other != id {
        if lists_page(left, other) {
            let k = choose|k: int| 0 <= k < left.len() && (#[trigger] left[k]).id@ == other;
            collected_has_source(pages, f, k);
            let i = choose|i: int| 0 <= i < pages.len() && f(#[trigger] pages[i]) == Some(left[k]);
            assert(pages[i].id@ == other);
        }
        if lists_page(pages, other) {
            let i = choose|i: int| 0 <= i < pages.len() && (#[trigger] pages[i]).id@ == other;
            source_is_collected(pages, f, i);
            let k = choose|k: int| 0 <= k < left.len() && Some(#[trigger] left[k]) == f(pages[i]);
            assert(left[k].id@ == other);
        }
    }
}

pub open spec fn distinct_pages(pages: Seq<DocPage>) -> bool {
    forall|i: int, j: int|
        0 <= i < j < pages.len() ==> (#[trigger] pages[i]).id@ != (#[trigger] pages[j]).id@
}

pub open spec fn lists_page(pages: Seq<DocPage>, id: Seq<char>) -> bool {
    exists|i: int| 0 <= i < pages.len() && (#[trigger] pages[i]).id@ == id
}

proof fn with_page_lists(pages: Seq<DocPage>, p: DocPage, id: Seq<char>)
    ensures
        lists_page(with_page(pages, p), id) <==> lists_page(pages, id) || p.id@ == id,
        distinct_pages(pages) ==> distinct_pages(with_page(pages, p)),
        with_page(pages, p).contains(p),
{
    page_at_is_first(pages, p.id@, 0);
    let w = with_page(pages, p);
    match page_at(pages, p.id@, 0) {
        Some(k) => {
            assert(w[k] == p);
            if lists_page(pages, id) {
                let i = choose|i: int| 0 <= i < pages.len() && (#[trigger] pages[i]).id@ == id;
                assert(w[i].id@ == id);
            }
            if lists_page(w, id) {
                let i = choose|i: int| 0 <= i < w.len() && (#[trigger] w[i]).id@ == id;
                assert(pages[i].id@ == id);
            }
            if distinct_pages(pages) {
                assert forall|i: int, j: int| 0 <= i < j < w.len() implies (#[trigger] w[i]).id@
                    != (#[trigger] w[j]).id@ by {
                    assert(pages[i].id@ != pages[j].id@);
                }
            }
        },
        None => {
            assert(w[pages.len() as int] == p);
            if lists_page(pages, id) {
                let i = choose|i: int| 0 <= i < pages.len() && (#[trigger] pages[i]).id@ == id;
                assert(w[i].id@ == id);
            }
            if lists_page(w, id) {
                let i = choose|i: int| 0 <= i < w.len() && (#[trigger] w[i]).id@ == id;
                if i < pages.len() {
                    assert(pages[i].id@ == id);
                }
            }
            if distinct_pages(pages) {
                assert forall|i: int, j: int| 0 <= i < j < w.len() implies (#[trigger] w[i]).id@
                    != (#[trigger] w[j]).id@ by {
                    assert(pages[i].id@ != p.id@);
                    if j < pages.len() {
                        assert(pages[i].id@ != pages[j].id@);
                    }
                }
            }
        },
    }
}

/// The wiki shows every page of either store, and each of them once.
pub proof fn the_wiki_shows_every_page_once(
    pages: Seq<DocPage>,
    stored: Seq<DocPage>,
    id: Seq<char>,
)
    ensures
        lists_page(merged(pages, stored), id) <==> lists_page(pages, id) || lists_page(stored, id),
        distinct_pages(pages) ==> distinct_pages(merged(pages, stored)),
    decreases stored.len(),
{
    if stored.len() > 0 {
        let rest = stored.drop_last();
        the_wiki_shows_every_page_once(pages, rest, id);
        with_page_lists(merged(pages, rest), stored.last(), id);
        if lists_page(rest, id) {
            let i = choose|i: int| 0 <= i < rest.len() && (#[trigger] rest[i]).id@ == id;
            assert(stored[i].id@ == id);
        }
        if stored.last().id@ == id {
            assert(stored[stored.len() - 1].id@ == id);
        }
        if lists_page(stored, id) {
            let i = choose|i: int| 0 <= i < stored.len() && (#[trigger] stored[i]).id@ == id;
            if i < rest.len() {
                assert(rest[i].id@ == id);
            }
        }
    }
}

/// A page of the page store is the one that the wiki shows.
pub proof fn a_stored_page_wins(pages: Seq<DocPage>, stored: Seq<DocPage>, i: int)
    requires
        0 <= i < stored.len(),
        distinct_pages(stored),
    ensures
        merged(pages, stored).contains(stored[i]),
    decreases stored.len(),
{
    let rest = stored.drop_last();
    let base = merged(pages, rest);
    let p = stored.last();
    with_page_lists(base, p, p.id@);
    if i < rest.len() {
        assert(distinct_pages(rest)) by {
            assert forall|a: int, b: int| 0 <= a < b < rest.len() implies (#[trigger] rest[a]).id@
                != (#[trigger] rest[b]).id@ by {
                assert(stored[a].id@ != stored[b].id@);
            }
        }
        a_stored_page_wins(pages, rest, i);
        let k = choose|k: int| 0 <= k < base.len() && base[k] == rest[i];
        page_at_is_first(base, p.id@, 0);
        assert(stored[i].id@ != stored[stored.len() - 1].id@);
        assert(merged(pages, stored)[k] == stored[i]);
    }
}

/// A page as it is saved: an empty id is one to be minted.
#[derive(Clone, Debug)]
pub struct DocSave {
    pub id: String,
    pub folder: String,
    pub title: String,
    pub body: String,
    pub author: String,
}

/// The page that is stored for a save.
pub fn stored_page(save: &DocSave, minted: &str, now: &str) -> (r: DocPage)
    ensures
        r.id@ == if save.id@.len() == 0 {
            minted@
        } else {
            save.id@
        },
        r.folder == save.folder,
        r.category@ == category_of(save.folder@),
        r.title == save.title,
        r.body == save.body,
        r.updated_at@ == now@,
        r.updated_by == save.author,
{
    DocPage {
        id: if save.id.as_str().is_empty() {
            owned(minted)
        } else {
            save.id.clone()
        },
        folder: save.folder.clone(),
        category: owned(doc_category(save.folder.as_str())),
        title: save.title.clone(),
        body: save.body.clone(),
        updated_at: owned(now),
        updated_by: save.author.clone(),
    }
}

/// The id that a save is for: a client's placeholder means a new page.
pub open spec fn saved_id(id: Seq<char>) -> Seq<char> {
    if spec_starts(id, "new-"@) {
        Seq::empty()
    } else {
        id
    }
}

/// Admits a save.
pub fn plan_save(
    exists_: bool,
    id: &str,
    folder: &str,
    title: &str,
    body: &str,
    author: &str,
) -> (r: Result<DocSave, Refusal>)
    ensures
        match r {
            Ok(s) => {
                &&& exists_ && spec_trim(title@).len() > 0
                &&& s.id@ == saved_id(id@)
                &&& s.folder@ == spec_trim(folder@)
                &&& s.title@ == spec_trim(title@)
                &&& s.body@ == body@
                &&& s.author@ == author@
            },
            Err(e) => if !exists_ {
                e.v() == (404u16, "no such project"@, false)
            } else {
                spec_trim(title@).len() == 0 && e.v() == (400u16, "title required"@, false)
            },
        },
{
    if !exists_ {
        return Err(not_found());
    }
    let t = trim(title);
    if t.as_str().is_empty() {
        return Err(plain(400, "title required"));
    }
    Ok(
        DocSave {
            id: if starts_with(id, "new-") {
                String::new()
            } else {
                owned(id)
            },
            folder: trim(folder),
            title: t,
            body: owned(body),
            author: owned(author),
        },
    )
}

/// Admits the request to have a page revised and gives the instruction.
pub fn admit_edit(exists_: bool, page_found: bool, instruction: &str) -> (r: Result<String, Refusal>)
    ensures
        match r {
            Ok(t) => exists_ && page_found && t@ == spec_trim(instruction@) && t@.len() > 0,
            Err(e) => if !exists_ || !page_found {
                e.v() == (404u16, "no such project"@, false)
            } else {
                spec_trim(instruction@).len() == 0 && e.v() == (
                    400u16,
                    "instruction required"@,
                    false,
                )
            },
        },
{
    if !exists_ || !page_found {
        return Err(not_found());
    }
    let t = trim(instruction);
    if t.as_str().is_empty() {
        return Err(plain(400, "instruction required"));
    }
    Ok(t)
}

/// The save of a revised page, or why there is none: the page stays where it is.
pub fn revised(page: &DocPage, body: &Result<String, String>) -> (r: Result<DocSave, Refusal>)
    ensures
        match (*body, r) {
            (Ok(text), Ok(s)) => s.id == page.id && s.folder == page.folder && s.title == page.title
                && s.body == text && s.author@ == "DOCS"@,
            (Err(why), Err(e)) => e.v() == (500u16, "doc edit failed: "@ + why@, true),
            _ => false,
        },
{
    match body {
        Ok(text) => Ok(
            DocSave {
                id: page.id.clone(),
                folder: page.folder.clone(),
                title: page.title.clone(),
                body: text.clone(),
                author: owned("DOCS"),
            },
        ),
        Err(why) => {
            let text = join2("doc edit failed: ", why.as_str());
            Err(internal_error(text.as_str()))
        },
    }
}

/// The save that moves a page into another folder.
pub fn moved_page(exists_: bool, page: &Option<DocPage>, id: &str, folder: &str) -> (r: Result<
    DocSave,
    Refusal,
>)
    ensures
        match r {
            Ok(s) => exists_ && page is Some && s.id@ == id@ && s.folder@ == folder@ && s.title
                == page->0.title && s.body == page->0.body && s.author@ == "USER"@,
            Err(e) => if !exists_ {
                e.v() == (404u16, "no such project"@, false)
            } else {
                page is None && e.v() == (404u16, "no such page"@, false)
            },
        },
{
    if !exists_ {
        return Err(not_found());
    }
    match page {
        None => Err(plain(404, "no such page")),
        Some(p) => Ok(
            DocSave {
                id: owned(id),
                folder: owned(folder),
                title: p.title.clone(),
                body: p.body.clone(),
                author: owned("USER"),
            },
        ),
    }
}

/// The path of a folder, without the slashes around it.
pub open spec fn spec_folder(path: Seq<char>) -> Seq<char> {
    spec_trim_char(spec_trim(path), '/')
}

/// The path of a folder.
pub fn folder_path(path: &str) -> (r: String)
    ensures
        r@ == spec_folder(path@),
{
    let t = trim(path);
    trim_char(t.as_str(), '/')
}

/// Whether a page is in a folder or below it.
pub open spec fn under(folder: Seq<char>, path: Seq<char>) -> bool {
    folder == path || spec_starts(folder, path + "/"@)
}

pub open spec fn ids_under(pages: Seq<DocPage>, path: Seq<char>) -> Seq<String>
    decreases pages.len(),
{
    if pages.len() == 0 {
        Seq::empty()
    } else if under(pages.last().folder@, path) {
        ids_under(pages.drop_last(), path).push(pages.last().id)
    } else {
        ids_under(pages.drop_last(), path)
    }
}

/// The pages that go with a folder: those in it and in every folder below it.
pub fn pages_under(pages: &Vec<DocPage>, path: &str) -> (r: Vec<String>)
    ensures
        r@ == ids_under(pages@, path@),
{
    let prefix = join2(path, "/");
    let mut r: Vec<String> = Vec::new();
    let mut i: usize = 0;
    assert(pages@.take(0) =~= Seq::empty());
    while i < pages.len()
        invariant
            i <= pages.len(),
            prefix@ == path@ + "/"@,
            r@ == ids_under(pages@.take(i as int), path@),
        decreases pages.len() - i,
    {
        assert(pages@.take(i + 1).drop_last() =~= pages@.take(i as int));
        let p = &pages[i];
        if same(p.folder.as_str(), path) || starts_with(p.folder.as_str(), prefix.as_str()) {
            r.push(p.id.clone());
        }
        i += 1;
    }
    assert(pages@.take(pages@.len() as int) =~= pages@);
    r
}

/// A folder takes no page of a folder beside it along, though their names begin alike.
pub proof fn a_deleted_folder_takes_no_neighbour_along(pages: Seq<DocPage>, path: Seq<char>, k: int)
    requires
        0 <= k < ids_under(pages, path).len(),
    ensures
        exists|i: int|
            0 <= i < pages.len() && under((#[trigger] pages[i]).folder@, path) && pages[i].id
                == ids_under(pages, path)[k],
    decreases pages.len(),
{
    let rest = pages.drop_last();
    if under(pages.last().folder@, path) && k == ids_under(rest, path).len() {
        assert(pages[pages.len() - 1].id == ids_under(pages, path)[k]);
    } else {
        a_deleted_folder_takes_no_neighbour_along(rest, path, k);
        let i = choose|i: int|
            0 <= i < rest.len() && under((#[trigger] rest[i]).folder@, path) && rest[i].id
                == ids_under(rest, path)[k];
        assert(pages[i] == rest[i]);
    }
}

/// The name of the room in which a page is edited.
pub fn room_of(pid: &str, id: &str) -> (r: String)
    ensures
        r@ == pid@ + "/"@ + id@,
{
    join3(pid, "/", id)
}

/// What the editor of a page sends.
#[derive(Clone, Debug)]
pub enum DocFrame {
    /// Nothing that counts.
    Ignored,
    /// The page, to be saved and shown to the others.
    Save { title: String, folder: String, body: String, origin: String },
    /// A sign of life.
    Ping,
}

pub open spec fn text_or_empty(v: Option<JsonView>) -> Seq<char> {
    match v {
        Some(JsonView::Text(s)) => s,
        _ => Seq::empty(),
    }
}

fn text_of(v: &Option<Json>) -> (r: String)
    ensures
        r@ == text_or_empty(value_view(*v)),
{
    match v {
        Some(Json::Text(s)) => s.clone(),
        _ => String::new(),
    }
}

/// Whether a frame says what its values say.
pub open spec fn frame_says(
    f: DocFrame,
    op: Option<JsonView>,
    title: Option<JsonView>,
    folder: Option<JsonView>,
    body: Option<JsonView>,
    origin: Option<JsonView>,
) -> bool {
    match f {
        DocFrame::Save { title: t, folder: d, body: b, origin: o } => {
            &&& text_or_empty(op) == "save"@
            &&& spec_trim(text_or_empty(title)).len() > 0
            &&& t@ == text_or_empty(title)
            &&& d@ == text_or_empty(folder)
            &&& b@ == text_or_empty(body)
            &&& o@ == text_or_empty(origin)
        },
        DocFrame::Ping => text_or_empty(op) != "save"@ && text_or_empty(op) == "ping"@,
        DocFrame::Ignored => if text_or_empty(op) == "save"@ {
            spec_trim(text_or_empty(title)).len() == 0
        } else {
            text_or_empty(op) != "ping"@
        },
    }
}

/// Reads a frame from its values.
pub fn frame_of(
    op: &Option<Json>,
    title: &Option<Json>,
    folder: &Option<Json>,
    body: &Option<Json>,
    origin: &Option<Json>,
) -> (r: DocFrame)
    ensures
        frame_says(
            r,
            value_view(*op),
            value_view(*title),
            value_view(*folder),
            value_view(*body),
            value_view(*origin),
        ),
{
    let kind = text_of(op);
    if same(kind.as_str(), "save") {
        let t = text_of(title);
        if is_blank(t.as_str()) {
            return DocFrame::Ignored;
        }
        DocFrame::Save {
            title: t,
            folder: text_of(folder),
            body: text_of(body),
            origin: text_of(origin),
        }
    } else if same(kind.as_str(), "ping") {
        DocFrame::Ping
    } else {
        DocFrame::Ignored
    }
}

/// Reads what the editor of a page sent: a JSON text.
pub fn doc_frame(text: &str) -> (r: DocFrame)
    ensures
        frame_says(
            r,
            json_member(text@, "op"@),
            json_member(text@, "title"@),
            json_member(text@, "folder"@),
            json_member(text@, "body"@),
            json_member(text@, "origin"@),
        ),
{
    let op = read_member(text, "op");
    let title = read_member(text, "title");
    let folder = read_member(text, "folder");
    let body = read_member(text, "body");
    let origin = read_member(text, "origin");
    frame_of(&op, &title, &folder, &body, &origin)
}

/// Why a page is not opened for live editing.
pub open spec fn editor_refusal(
    serves_realtime: bool,
    same_origin: bool,
    accounts: bool,
    user: Option<String>,
    exists_: bool,
) -> Option<(u16, Seq<char>, bool)> {
    if !serves_realtime {
        Some(
            (503, "wrong service role for this endpoint — check the load balancer routing"@, false),
        )
    } else if !same_origin {
        Some((403, "cross-origin websocket rejected"@, false))
    } else if accounts && user is None {
        Some((401, "unauthenticated"@, false))
    } else if !exists_ {
        Some((404, "no such project"@, false))
    } else {
        None
    }
}

/// Admits a live editor and tells who it is.
pub fn admit_editor(
    serves_realtime: bool,
    same_origin: bool,
    accounts: bool,
    user: &Option<String>,
    exists_: bool,
) -> (r: Result<String, Refusal>)
    ensures
        match r {
            Err(e) => editor_refusal(serves_realtime, same_origin, accounts, *user, exists_)
                == Some(e.v()),
            Ok(who) => editor_refusal(serves_realtime, same_origin, accounts, *user, exists_)
                is None && who@ == if accounts {
                user->0@
            } else {
                "user"@
            },
        },
{
    if !serves_realtime {
        return Err(
            plain(503, "wrong service role for this endpoint — check the load balancer routing"),
        );
    }
    if !same_origin {
        return Err(plain(403, "cross-origin websocket rejected"));
    }
    let who = if accounts {
        match user {
            None => {
                return Err(plain(401, "unauthenticated"));
            },
            Some(u) => u.clone(),
        }
    } else {
        owned("user")
    };
    if !exists_ {
        return Err(not_found());
    }
    Ok(who)
}

/// The colour of a page is told by its top folder alone, in whatever case it is written: what lies
/// below it has no say.
pub proof fn the_top_folder_colours_a_page(folder: Seq<char>, below: Seq<char>)
    requires
        !folder.contains('/'),
    ensures
        category_of(folder + seq!['/'] + below) == category_of(folder),
        ({
            let top = spec_ascii_lower(spec_trim(folder));
            &&& category_of(folder) == "technical"@ <==> top == "technical"@ || top
                == "architecture"@ || top == "engineering"@
            &&& category_of(folder) == "flows"@ <==> top == "flows"@ || top == "design"@
            &&& category_of(folder) == "qa"@ <==> top == "testing"@ || top == "qa"@ || top
                == "test"@ || top == "tests"@
            &&& category_of(folder) == "ops"@ <==> top == "operations"@ || top == "ops"@ || top
                == "release notes"@ || top == "releases"@
            &&& category_of(folder) == "product"@ || category_of(folder) == "technical"@
                || category_of(folder) == "flows"@ || category_of(folder) == "qa"@ || category_of(
                folder,
            ) == "ops"@
        }),
{
    split_without(folder, '/');
    split_of_joined(folder, below, '/');
    split_nonempty(below, '/');
    folder_names_differ();
}

proof fn folder_names_differ()
    ensures
        "technical"@.len() == 9,
        "architecture"@.len() == 12,
        "engineering"@.len() == 11,
        "flows"@.len() == 5,
        "design"@.len() == 6,
        "testing"@.len() == 7,
        "qa"@.len() == 2,
        "test"@.len() == 4,
        "tests"@.len() == 5,
        "operations"@.len() == 10,
        "ops"@.len() == 3,
        "release notes"@.len() == 13,
        "releases"@.len() == 8,
        "product"@.len() == 7,
        "flows"@[0] != "tests"@[0],
        "testing"@[0] != "product"@[0],
{
    reveal_strlit("technical");
    reveal_strlit("architecture");
    reveal_strlit("engineering");
    reveal_strlit("flows");
    reveal_strlit("design");
    reveal_strlit("testing");
    reveal_strlit("qa");
    reveal_strlit("test");
    reveal_strlit("tests");
    reveal_strlit("operations");
    reveal_strlit("ops");
    reveal_strlit("release notes");
    reveal_strlit("releases");
    reveal_strlit("product");
}

/// A page that is saved takes the place of the page of its id, or comes last; no other page moves
/// or changes.
pub proof fn a_save_touches_one_place(pages: Seq<DocPage>, p: DocPage, i: int)
    requires
        0 <= i < pages.len(),
    ensures
        ({
            let now = with_page(pages, p);
            &&& now[i] == pages[i] || pages[i].id@ == p.id@ && now[i] == p
            &&& (forall|k: int| 0 <= k < pages.len() ==> (#[trigger] pages[k]).id@ != p.id@)
                ==> now == pages.push(p)
            &&& (exists|k: int| 0 <= k < pages.len() && (#[trigger] pages[k]).id@ == p.id@)
                ==> now.len() == pages.len()
        }),
{
    page_at_is_first(pages, p.id@, 0);
}

/// The pages of the project keep their places in the wiki.
pub proof fn the_wiki_keeps_the_order(pages: Seq<DocPage>, stored: Seq<DocPage>, i: int)
    requires
        0 <= i < pages.len(),
    ensures
        merged(pages, stored).len() >= pages.len(),
        merged(pages, stored)[i].id@ == pages[i].id@,
    decreases stored.len(),
{
    if stored.len() > 0 {
        let before = merged(pages, stored.drop_last());
        the_wiki_keeps_the_order(pages, stored.drop_last(), i);
        a_save_touches_one_place(before, stored.last(), i);
        page_at_is_first(before, stored.last().id@, 0);
    }
}

/// Deleting a page leaves the others, all of them and in their order.
pub proof fn the_other_pages_stay(pages: Seq<DocPage>, id: Seq<char>)
    ensures
        collect(pages, other_page(id)) == pages.filter(|p: DocPage| p.id@ != id),
{
    kept_is_filtered(pages, other_page(id), |p: DocPage| p.id@ != id);
}

/// A reader gets the page of the page store where there is one; else the project's first page of
/// that id.
pub proof fn the_page_store_is_read_first(stored: Option<DocPage>, pages: Seq<DocPage>, id: Seq<char>)
    ensures
        stored is Some ==> shown_page(stored, pages, id) == stored,
        stored is None ==> match shown_page(stored, pages, id) {
            Some(p) => exists|i: int|
                0 <= i < pages.len() && (#[trigger] pages[i]) == p && p.id@ == id && (forall|j: int|
                    0 <= j < i ==> (#[trigger] pages[j]).id@ != id),
            None => forall|j: int| 0 <= j < pages.len() ==> (#[trigger] pages[j]).id@ != id,
        },
{
    a_page_is_found_by_its_id(pages, id, 0);
}

/// A client's placeholder is no id: what begins with it is saved as a new page, and everything
/// else under the id that was given.
pub proof fn a_placeholder_is_no_id(id: Seq<char>)
    ensures
        "new-"@.is_prefix_of(id) ==> saved_id(id).len() == 0,
        !"new-"@.is_prefix_of(id) ==> saved_id(id) == id,
{
    assert("new-"@.is_prefix_of(id) <==> spec_starts(id, "new-"@)) by {
        if spec_starts(id, "new-"@) {
            assert("new-"@ =~= id.subrange(0, "new-"@.len() as int));
        }
        if "new-"@.is_prefix_of(id) {
            assert(id.take("new-"@.len() as int) =~= "new-"@);
        }
    }
}

/// A folder that goes takes along exactly the pages that lie in it or below it.
pub proof fn a_folder_takes_its_pages_along(pages: Seq<DocPage>, path: Seq<char>)
    ensures
        ids_under(pages, path) == pages.filter(
            |p: DocPage| p.folder@ == path || (path + "/"@).is_prefix_of(p.folder@),
        ).map_values(|p: DocPage| p.id),
    decreases pages.len(),
{
    reveal(Seq::filter);
    let keep = |p: DocPage| p.folder@ == path || (path + "/"@).is_prefix_of(p.folder@);
    let id = |p: DocPage| p.id;
    if pages.len() == 0 {
        assert(ids_under(pages, path) =~= pages.filter(keep).map_values(id));
    } else {
        let init = pages.drop_last();
        let last = pages.last();
        a_folder_takes_its_pages_along(init, path);
        let deep = path + "/"@;
        assert(under(last.folder@, path) <==> keep(last)) by {
            if spec_starts(last.folder@, deep) {
                assert(deep =~= last.folder@.subrange(0, deep.len() as int));
            }
            if deep.is_prefix_of(last.folder@) {
                assert(last.folder@.take(deep.len() as int) =~= deep);
            }
        }
        let kept = init.filter(keep);
        assert(kept.push(last).map_values(id) =~= kept.map_values(id).push(id(last)));
    }
}

/// The path of a folder neither begins nor ends with a slash, nor with white space where it had no
/// slash.
pub proof fn a_folder_path_has_no_outer_slash(path: Seq<char>)
    ensures
        spec_folder(path).len() > 0 ==> spec_folder(path)[0] != '/' && spec_folder(path).last()
            != '/',
        !spec_trim(path).contains('/') ==> spec_folder(path) == spec_trim(path),
{
    trimming_cuts_the_character_alone(spec_trim(path), '/');
}

/// An editor's frame saves the page exactly where it asks for that and brings a title; it is a
/// sign of life exactly where it says so. What it brings is what is saved.
pub proof fn a_frame_saves_what_it_brings(
    f: DocFrame,
    op: Option<JsonView>,
    title: Option<JsonView>,
    folder: Option<JsonView>,
    body: Option<JsonView>,
    origin: Option<JsonView>,
)
    requires
        frame_says(f, op, title, folder, body, origin),
    ensures
        f is Ping <==> op == Some(JsonView::Text("ping"@)),
        f is Save <==> op == Some(JsonView::Text("save"@)) && match title {
            Some(JsonView::Text(t)) => spec_trim(t).len() > 0,
            _ => false,
        },
        match f {
            DocFrame::Save { title: t, folder: d, body: b, origin: o } => {
                &&& title == Some(JsonView::Text(t@))
                &&& folder == Some(JsonView::Text(d@)) || d@.len() == 0
                &&& body == Some(JsonView::Text(b@)) || b@.len() == 0
                &&& origin == Some(JsonView::Text(o@)) || o@.len() == 0
                &&& folder is Some && folder->0 is Text ==> folder == Some(JsonView::Text(d@))
                &&& body is Some && body->0 is Text ==> body == Some(JsonView::Text(b@))
                &&& origin is Some && origin->0 is Text ==> origin == Some(JsonView::Text(o@))
            },
            _ => true,
        },
{
    reveal_strlit("ping");
    reveal_strlit("save");
    assert("ping"@[0] != "save"@[0]);
    assert(spec_trim(Seq::<char>::empty()) =~= Seq::empty());
}

/// A page is opened for live editing exactly on a process that serves sockets, from the hub's own
/// origin, by someone who is signed in, and on a project that is there.
pub proof fn live_editing_is_for_people_signed_in(
    serves_realtime: bool,
    same_origin: bool,
    accounts: bool,
    user: Option<String>,
    exists_: bool,
)
    ensures
        editor_refusal(serves_realtime, same_origin, accounts, user, exists_) is None <==> {
            &&& serves_realtime
            &&& same_origin
            &&& !accounts || user is Some
            &&& exists_
        },
        match editor_refusal(serves_realtime, same_origin, accounts, user, exists_) {
            Some((status, _, _)) => {
                &&& status == 503 <==> !serves_realtime
                &&& status == 403 <==> serves_realtime && !same_origin
                &&& status == 401 <==> serves_realtime && same_origin && accounts && user is None
            },
            None => true,
        },
{
}

/// A page is found by its id: the first one in the list.
pub proof fn a_page_is_found_by_its_id(pages: Seq<DocPage>, id: Seq<char>, i: int)
    requires
        0 <= i,
    ensures
        match page_at(pages, id, i) {
            Some(v) => i <= v < pages.len() && pages[v].id@ == id && (forall|j: int|
                i <= j < v ==> !((#[trigger] pages[j]).id@ == id)),
            None => forall|j: int| i <= j < pages.len() ==> !((#[trigger] pages[j]).id@ == id),
        },
    decreases pages.len() - i,
{
    if i < pages.len() && !(pages[i].id@ == id) {
        a_page_is_found_by_its_id(pages, id, i + 1);
    }
}

} // verus!
