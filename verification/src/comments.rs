//! The discussion thread: comments, reactions and the files that come with them.

use crate::lists::{collect, collect_step, kept_is_filtered};
use crate::reply::{internal_error, not_found, plain, Refusal};
use crate::text::{
    after_last, head, join2, join3, same, spec_after_last, spec_head, spec_trim, trim,
    what_follows_the_last,
};
use vstd::prelude::*;

verus! {

/// A comment, on a ticket or to the whole team.
#[derive(Clone, Debug)]
pub struct Comment {
    pub id: String,
    pub author: String,
    pub body: String,
    pub ticket: Option<String>,
}

impl Comment {
    fn copy(&self) -> (r: Comment)
        ensures
            r == *self,
    {
        Comment {
            id: self.id.clone(),
            author: self.author.clone(),
            body: self.body.clone(),
            ticket: match &self.ticket {
                Some(t) => Some(t.clone()),
                None => None,
            },
        }
    }
}

pub open spec fn on_ticket(ticket: Seq<char>) -> spec_fn(Comment) -> Option<Comment> {
    |c: Comment|
        if c.ticket is Some && c.ticket->0@ == ticket {
            Some(c)
        } else {
            None
        }
}

/// The comments on one ticket, in their order.
pub fn comments_on(comments: &Vec<Comment>, ticket: &str) -> (r: Vec<Comment>)
    ensures
        r@ == collect(comments@, on_ticket(ticket@)),
{
    let mut r: Vec<Comment> = Vec::new();
    let ghost f = on_ticket(ticket@);
    let mut i: usize = 0;
    assert(comments@.take(0) =~= Seq::empty());
    while i < comments.len()
        invariant
            i <= comments.len(),
            f == on_ticket(ticket@),
            r@ == collect(comments@.take(i as int), f),
        decreases comments.len() - i,
    {
        proof {
            collect_step(comments@, f, i as int);
        }
        let c = &comments[i];
        let here = match &c.ticket {
            Some(t) => same(t.as_str(), ticket),
            None => false,
        };
        if here {
            r.push(c.copy());
        }
        i += 1;
    }
    assert(comments@.take(comments@.len() as int) =~= comments@);
    r
}

/// The comments that are listed: all, or those on the ticket asked for.
pub fn list_comments(exists_: bool, comments: Vec<Comment>, ticket: &Option<String>) -> (r: Result<
    Vec<Comment>,
    Refusal,
>)
    ensures
        match r {
            Ok(list) => exists_ && list@ == match ticket {
                None => comments@,
                Some(t) => collect(comments@, on_ticket(t@)),
            },
            Err(e) => !exists_ && e.v() == (404u16, "no such project"@, false),
        },
{
    if !exists_ {
        return Err(not_found());
    }
    match ticket {
        None => Ok(comments),
        Some(t) => Ok(comments_on(&comments, t.as_str())),
    }
}

/// Why a comment is not posted.
pub open spec fn comment_refusal(exists_: bool, body: Seq<char>, files: nat, loaded: bool) -> Option<
    (u16, Seq<char>, bool),
> {
    if !exists_ {
        Some((404, "no such project"@, false))
    } else if spec_trim(body).len() == 0 && files == 0 {
        Some((400, "empty comment"@, false))
    } else if !loaded {
        Some((500, "load failed"@, true))
    } else {
        None
    }
}

/// Admits a comment and gives its body: a text, files, or both.
pub fn admit_comment(exists_: bool, body: &str, files: usize, loaded: bool) -> (r: Result<
    String,
    Refusal,
>)
    ensures
        match r {
            Err(e) => comment_refusal(exists_, body@, files as nat, loaded) == Some(e.v()),
            Ok(text) => comment_refusal(exists_, body@, files as nat, loaded) is None && text@
                == spec_trim(body@),
        },
{
    if !exists_ {
        return Err(not_found());
    }
    let text = trim(body);
    if text.as_str().is_empty() && files == 0 {
        return Err(plain(400, "empty comment"));
    }
    if !loaded {
        return Err(internal_error("load failed"));
    }
    Ok(text)
}

/// Why a reaction is not taken.
pub open spec fn reaction_refusal(exists_: bool, emoji: Seq<char>, loaded: bool, found: bool) -> Option<
    (u16, Seq<char>, bool),
> {
    if !exists_ {
        Some((404, "no such project"@, false))
    } else if emoji.len() == 0 {
        Some((400, "emoji required"@, false))
    } else if !loaded {
        Some((500, "load failed"@, true))
    } else if !found {
        Some((404, "no such project"@, false))
    } else {
        None
    }
}

/// Admits a reaction and gives the emoji that is toggled: its first eight characters.
pub fn admit_reaction(exists_: bool, emoji: &str, loaded: bool, found: bool) -> (r: Result<
    String,
    Refusal,
>)
    ensures
        match r {
            Err(e) => reaction_refusal(exists_, emoji@, loaded, found) == Some(e.v()),
            Ok(text) => reaction_refusal(exists_, emoji@, loaded, found) is None && text@
                == spec_head(emoji@, 8),
        },
{
    if !exists_ {
        return Err(not_found());
    }
    if emoji.is_empty() {
        return Err(plain(400, "emoji required"));
    }
    if !loaded {
        return Err(internal_error("load failed"));
    }
    if !found {
        return Err(not_found());
    }
    Ok(head(emoji, 8))
}

/// A file that came with a comment.
#[derive(Clone, Debug)]
pub struct CommentFile {
    pub name: String,
    pub mime: String,
    pub url: String,
}

/// A file to be read: what it is called, its type, the key it is stored under and the name it is
/// written under.
#[derive(Clone, Debug)]
pub struct FileToRead {
    pub name: String,
    pub mime: String,
    pub key: String,
    pub file_name: String,
}

pub open spec fn stored_key(project: Seq<char>, url: Seq<char>) -> Seq<char> {
    "proj/"@ + project + "/"@ + spec_after_last(url, '/')
}

/// Where the files of a comment are stored: under the project, by the last segment of their
/// address.
pub fn files_to_read(project: &str, files: &Vec<CommentFile>) -> (r: Vec<FileToRead>)
    ensures
        r@.len() == files@.len(),
        forall|i: int|
            0 <= i < files@.len() ==> {
                &&& (#[trigger] r@[i]).name == files@[i].name
                &&& r@[i].mime == files@[i].mime
                &&& r@[i].key@ == stored_key(project@, files@[i].url@)
                &&& r@[i].file_name@ == spec_after_last(r@[i].key@, '/')
            },
{
    let mut r: Vec<FileToRead> = Vec::new();
    let mut i: usize = 0;
    while i < files.len()
        invariant
            i <= files.len(),
            r@.len() == i,
            forall|j: int|
                0 <= j < i ==> {
                    &&& (#[trigger] r@[j]).name == files@[j].name
                    &&& r@[j].mime == files@[j].mime
                    &&& r@[j].key@ == stored_key(project@, files@[j].url@)
                    &&& r@[j].file_name@ == spec_after_last(r@[j].key@, '/')
                },
        decreases files.len() - i,
    {
        let f = &files[i];
        let file = after_last(f.url.as_str(), '/');
        let dir = join3("proj/", project, "/");
        let key = join2(dir.as_str(), file.as_str());
        let file_name = after_last(key.as_str(), '/');
        r.push(FileToRead { name: f.name.clone(), mime: f.mime.clone(), key, file_name });
        i += 1;
    }
    r
}

/// The comments on a ticket are those that name it, all of them and in their order.
pub proof fn comments_are_listed_by_their_ticket(comments: Seq<Comment>, ticket: Seq<char>)
    ensures
        collect(comments, on_ticket(ticket)) == comments.filter(
            |c: Comment| c.ticket is Some && c.ticket->0@ == ticket,
        ),
{
    kept_is_filtered(
        comments,
        on_ticket(ticket),
        |c: Comment| c.ticket is Some && c.ticket->0@ == ticket,
    );
}

/// A comment is taken exactly where it says something or brings a file, on a project that is there
/// and can be read.
pub proof fn a_comment_says_something(exists_: bool, body: Seq<char>, files: nat, loaded: bool)
    ensures
        comment_refusal(exists_, body, files, loaded) is None <==> exists_ && loaded && (spec_trim(
            body,
        ).len() > 0 || files > 0),
        match comment_refusal(exists_, body, files, loaded) {
            Some((status, _, as_json)) => {
                &&& status == 404 <==> !exists_
                &&& status == 400 <==> exists_ && spec_trim(body).len() == 0 && files == 0
                &&& as_json <==> status == 500
            },
            None => true,
        },
{
}

/// A reaction is taken exactly where it has an emoji and its comment is there.
pub proof fn a_reaction_needs_a_comment(exists_: bool, emoji: Seq<char>, loaded: bool, found: bool)
    ensures
        reaction_refusal(exists_, emoji, loaded, found) is None <==> exists_ && emoji.len() > 0
            && loaded && found,
        match reaction_refusal(exists_, emoji, loaded, found) {
            Some((status, _, as_json)) => {
                &&& status == 400 <==> exists_ && emoji.len() == 0
                &&& status == 500 <==> exists_ && emoji.len() > 0 && !loaded
                &&& as_json <==> status == 500
            },
            None => true,
        },
{
}

/// A file is read from the store of its own project: the address that came with it names no more
/// than the last segment, so it never leads out of the project.
pub proof fn a_file_is_read_from_its_project(project: Seq<char>, url: Seq<char>)
    ensures
        ("proj/"@ + project + "/"@).is_prefix_of(stored_key(project, url)),
        !stored_key(project, url).skip(("proj/"@ + project + "/"@).len() as int).contains('/'),
        !url.contains('/') ==> stored_key(project, url) == "proj/"@ + project + "/"@ + url,
{
    let p = "proj/"@ + project + "/"@;
    let key = stored_key(project, url);
    assert(p =~= key.subrange(0, p.len() as int));
    assert(key.skip(p.len() as int) =~= spec_after_last(url, '/'));
    what_follows_the_last(url, '/');
}

} // verus!
