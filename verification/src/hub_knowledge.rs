//! What the projects of a hub know, and what of it is kept out of briefs.

use crate::lists::{
    collect, collect_step, drop_text, dropped_text_is_gone, dropping_keeps_others, kept_is_filtered,
    without_text,
};
use crate::order::{
    sort, sorted, sorting_adds_nothing, sorting_orders_and_keeps, text_le, text_le_is_an_order, text_leq,
    Ordered,
};
use crate::reply::{plain, Refusal};
use crate::text::{
    contains, digit_char, flat, has_text, is_blank, lowercase, owned, spec_contains, spec_trim,
    texts, spec_lowercase,
};
use vstd::prelude::*;

verus! {

/// A piece of knowledge that is shared.
#[derive(Clone, Debug)]
pub struct KnowledgeEntry {
    pub entry_id: String,
    pub project_id: String,
    pub kind: String,
    pub title: String,
}

/// A row of the index: an entry, and whether it is kept out of briefs.
#[derive(Clone, Debug)]
pub struct KnowledgeRow {
    pub entry: KnowledgeEntry,
    pub hidden: bool,
}

impl Ordered for KnowledgeRow {
    open spec fn le(self, other: Self) -> bool {
        text_le(self.entry.entry_id@, other.entry.entry_id@)
    }

    fn leq(&self, other: &Self) -> (r: bool) {
        text_leq(self.entry.entry_id.as_str(), other.entry.entry_id.as_str())
    }

    proof fn total(a: Self, b: Self) {
        text_le_is_an_order(a.entry.entry_id@, b.entry.entry_id@, b.entry.entry_id@);
    }

    proof fn transitive(a: Self, b: Self, c: Self) {
        text_le_is_an_order(a.entry.entry_id@, b.entry.entry_id@, c.entry.entry_id@);
    }
}

impl KnowledgeEntry {
    fn copy(&self) -> (r: KnowledgeEntry)
        ensures
            r == *self,
    {
        KnowledgeEntry {
            entry_id: self.entry_id.clone(),
            project_id: self.project_id.clone(),
            kind: self.kind.clone(),
            title: self.title.clone(),
        }
    }
}

/// The row of an entry, given what is kept out of briefs.
pub open spec fn flagged(hidden: Seq<String>, e: KnowledgeEntry) -> KnowledgeRow {
    KnowledgeRow { entry: e, hidden: texts(hidden).contains(e.entry_id@) }
}

/// The rows of all entries, by their ids.
pub open spec fn spec_index(entries: Seq<KnowledgeEntry>, hidden: Seq<String>) -> Seq<KnowledgeRow> {
    sorted(entries.map_values(|e: KnowledgeEntry| flagged(hidden, e)))
}

/// The index of what is shared: the entries of the projects, and those of the hub itself.
pub fn index_rows(entries: &Vec<KnowledgeEntry>, hidden: &Vec<String>) -> (r: Vec<KnowledgeRow>)
    ensures
        r@ == spec_index(entries@, hidden@),
{
    let mut rows: Vec<KnowledgeRow> = Vec::new();
    let mut i: usize = 0;
    while i < entries.len()
        invariant
            i <= entries.len(),
            rows@.len() == i,
            forall|j: int| 0 <= j < i ==> #[trigger] rows@[j] == flagged(hidden@, entries@[j]),
        decreases entries.len() - i,
    {
        let e = &entries[i];
        rows.push(
            KnowledgeRow { entry: e.copy(), hidden: has_text(hidden, e.entry_id.as_str()) },
        );
        i += 1;
    }
    assert(rows@ =~= entries@.map_values(|e: KnowledgeEntry| flagged(hidden@, e)));
    sort(rows)
}

/// What stands for one character in a JSON string.
pub open spec fn json_escaped(c: char) -> Seq<char> {
    if c == '"' {
        "\\\""@
    } else if c == '\\' {
        "\\\\"@
    } else if c == '\u{8}' {
        "\\b"@
    } else if c == '\t' {
        "\\t"@
    } else if c == '\n' {
        "\\n"@
    } else if c == '\u{c}' {
        "\\f"@
    } else if c == '\r' {
        "\\r"@
    } else if (c as nat) < 32 {
        "\\u00"@.push(digit_char(c as nat / 16)).push(digit_char(c as nat % 16))
    } else {
        seq![c]
    }
}

/// A text as a JSON string, quotes included.
pub open spec fn json_quoted(s: Seq<char>) -> Seq<char> {
    "\""@ + flat(s, |c: char| json_escaped(c)) + "\""@
}

/// `Display` of a `serde_json::Value::String`: the text between quotes, with the quote, the
/// backslash and the control characters escaped.
#[verifier::external_body]
pub(crate) fn quote_json(s: &str) -> (r: String)
    ensures
        r@ == json_quoted(s@),
{
    serde_json::Value::String(s.to_owned()).to_string()
}

/// A row as JSON, from the quoted texts of its parts.
pub open spec fn row_text(
    id: Seq<char>,
    project: Seq<char>,
    kind: Seq<char>,
    title: Seq<char>,
    hidden: bool,
) -> Seq<char> {
    "{\"curated\":{\"hidden_in_briefs\":"@ + (if hidden {
        "true"@
    } else {
        "false"@
    }) + "},\"entry_id\":"@ + id + ",\"kind\":"@ + kind + ",\"project_id\":"@ + project
        + ",\"title\":"@ + title + "}"@
}

/// Writes a row as JSON, from the quoted texts of its parts.
pub fn row_of_parts(id: &str, project: &str, kind: &str, title: &str, hidden: bool) -> (r: String)
    ensures
        r@ == row_text(id@, project@, kind@, title@, hidden),
{
    let mut r = owned("{\"curated\":{\"hidden_in_briefs\":");
    r.append(
        if hidden {
            "true"
        } else {
            "false"
        },
    );
    r.append("},\"entry_id\":");
    r.append(id);
    r.append(",\"kind\":");
    r.append(kind);
    r.append(",\"project_id\":");
    r.append(project);
    r.append(",\"title\":");
    r.append(title);
    r.append("}");
    r
}

/// A row as JSON.
pub open spec fn spec_row_json(row: KnowledgeRow) -> Seq<char> {
    row_text(
        json_quoted(row.entry.entry_id@),
        json_quoted(row.entry.project_id@),
        json_quoted(row.entry.kind@),
        json_quoted(row.entry.title@),
        row.hidden,
    )
}

/// Writes a row as JSON.
pub fn row_json(row: &KnowledgeRow) -> (r: String)
    ensures
        r@ == spec_row_json(*row),
{
    let id = quote_json(row.entry.entry_id.as_str());
    let project = quote_json(row.entry.project_id.as_str());
    let kind = quote_json(row.entry.kind.as_str());
    let title = quote_json(row.entry.title.as_str());
    row_of_parts(id.as_str(), project.as_str(), kind.as_str(), title.as_str(), row.hidden)
}

/// Whether a text answers a question: it holds it, whatever the case of either.
pub open spec fn answers(text: Seq<char>, q: Seq<char>) -> bool {
    q.len() == 0 || spec_contains(spec_lowercase(text), spec_lowercase(q))
}

pub open spec fn answering(q: Seq<char>) -> spec_fn(String) -> Option<String> {
    |text: String|
        if answers(text@, q) {
            Some(text)
        } else {
            None
        }
}

/// The texts that answer a question.
pub fn filter_rows(rows: &Vec<String>, q: &str) -> (r: Vec<String>)
    ensures
        r@ == collect(rows@, answering(q@)),
{
    let mut r: Vec<String> = Vec::new();
    let ghost f = answering(q@);
    let low = lowercase(q);
    let mut i: usize = 0;
    assert(rows@.take(0) =~= Seq::empty());
    while i < rows.len()
        invariant
            i <= rows.len(),
            low@ == spec_lowercase(q@),
            f == answering(q@),
            r@ == collect(rows@.take(i as int), f),
        decreases rows.len() - i,
    {
        proof {
            collect_step(rows@, f, i as int);
        }
        let row = rows[i].as_str();
        let row_low = lowercase(row);
        if q.is_empty() || contains(row_low.as_str(), low.as_str()) {
            r.push(rows[i].clone());
        }
        i += 1;
    }
    assert(rows@.take(rows@.len() as int) =~= rows@);
    r
}

/// Admits a reader of the index.
pub fn admit_index(accounts: bool, signed_in: bool) -> (r: Result<(), Refusal>)
    ensures
        match r {
            Ok(_) => !accounts || signed_in,
            Err(e) => accounts && !signed_in && e.v() == (401u16, "sign-in required"@, false),
        },
{
    if accounts && !signed_in {
        return Err(plain(401, "sign-in required"));
    }
    Ok(())
}

/// Admits a request to keep an entry out of briefs, or to let it in again.
pub fn admit_curation(entry_id: &str, accounts: bool, signed_in: bool) -> (r: Result<(), Refusal>)
    ensures
        match r {
            Ok(_) => spec_trim(entry_id@).len() > 0 && (!accounts || signed_in),
            Err(e) => if spec_trim(entry_id@).len() == 0 {
                e.v() == (400u16, "empty entry_id"@, false)
            } else {
                accounts && !signed_in && e.v() == (401u16, "sign-in required"@, false)
            },
        },
{
    if is_blank(entry_id) {
        return Err(plain(400, "empty entry_id"));
    }
    admit_index(accounts, signed_in)
}

/// The hidden entries after a decision on one.
pub open spec fn curated(list: Seq<String>, id: String, hide: bool) -> Seq<String> {
    if !hide {
        without_text(list, id@)
    } else if texts(list).contains(id@) {
        list
    } else {
        list.push(id)
    }
}

/// Keeps an entry out of briefs, or lets it in again.
pub fn curate(list: &mut Vec<String>, id: &String, hide: bool)
    ensures
        final(list)@ == curated(old(list)@, *id, hide),
{
    if hide {
        if !has_text(list, id.as_str()) {
            list.push(id.clone());
        }
    } else {
        drop_text(list, id.as_str());
    }
}

/// A decision holds: an entry is hidden after it exactly where it was to be hidden, and no other
/// entry is touched.
pub proof fn a_curation_holds(list: Seq<String>, id: String, hide: bool, other: Seq<char>)
    requires
        other != id@,
    ensures
        texts(curated(list, id, hide)).contains(id@) <==> hide,
        texts(curated(list, id, hide)).contains(other) <==> texts(list).contains(other),
{
    if hide {
        if !texts(list).contains(id@) {
            let now = texts(list.push(id));
            assert(now =~= texts(list).push(id@));
            assert(now[list.len() as int] == id@);
            if texts(list).contains(other) {
                let i = choose|i: int| 0 <= i < list.len() && texts(list)[i] == other;
                assert(now[i] == other);
            }
        }
    } else {
        dropped_text_is_gone(list, id@);
        dropping_keeps_others(list, id@, other);
    }
}

/// The index holds a row for every entry and no other, by their ids, and a row is marked hidden
/// exactly where its entry is on the list of what is kept out.
pub proof fn the_index_holds_every_entry(entries: Seq<KnowledgeEntry>, hidden: Seq<String>, row: KnowledgeRow)
    ensures
        spec_index(entries, hidden).contains(row) <==> entries.contains(row.entry) && row.hidden
            == texts(hidden).contains(row.entry.entry_id@),
        spec_index(entries, hidden).len() == entries.len(),
        forall|i: int, j: int|
            0 <= i < j < entries.len() ==> text_le(
                (#[trigger] spec_index(entries, hidden)[i]).entry.entry_id@,
                (#[trigger] spec_index(entries, hidden)[j]).entry.entry_id@,
            ),
{
    let rows = entries.map_values(|e: KnowledgeEntry| flagged(hidden, e));
    sorting_orders_and_keeps(rows);
    sorting_adds_nothing(rows, row);
    if rows.contains(row) {
        let k = choose|k: int| 0 <= k < rows.len() && rows[k] == row;
        assert(entries[k] == row.entry);
    }
    if entries.contains(row.entry) && row.hidden == texts(hidden).contains(row.entry.entry_id@) {
        let k = choose|k: int| 0 <= k < entries.len() && entries[k] == row.entry;
        assert(rows[k] == row);
    }
    assert forall|i: int, j: int| 0 <= i < j < entries.len() implies text_le(
        (#[trigger] spec_index(entries, hidden)[i]).entry.entry_id@,
        (#[trigger] spec_index(entries, hidden)[j]).entry.entry_id@,
    ) by {
        assert(sorted(rows)[i].le(sorted(rows)[j]));
    }
}

/// A search keeps exactly the texts that hold what is asked, in whatever case; an empty question
/// keeps them all.
pub proof fn a_search_keeps_what_holds_the_question(rows: Seq<String>, q: Seq<char>)
    ensures
        collect(rows, answering(q)) == rows.filter(
            |t: String| q.len() == 0 || spec_contains(spec_lowercase(t@), spec_lowercase(q)),
        ),
        q.len() == 0 ==> collect(rows, answering(q)) == rows,
{
    let keep = |t: String| q.len() == 0 || spec_contains(spec_lowercase(t@), spec_lowercase(q));
    kept_is_filtered(rows, answering(q), keep);
    if q.len() == 0 {
        all_are_kept(rows, keep);
    }
}

proof fn all_are_kept(rows: Seq<String>, keep: spec_fn(String) -> bool)
    requires
        forall|t: String| #[trigger] keep(t),
    ensures
        rows.filter(keep) == rows,
    decreases rows.len(),
{
    reveal(Seq::filter);
    if rows.len() > 0 {
        all_are_kept(rows.drop_last(), keep);
        assert(keep(rows.last()));
        assert(rows.drop_last().push(rows.last()) =~= rows);
    }
}

} // verus!
