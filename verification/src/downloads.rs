//! Uploads: their size, their type, their stored name.

use crate::security::{extension, lower_extension, spec_active_ext};
use crate::text::{
    chars_of, contains, is_ascii_alnum, same, spec_contains, split_nonempty, spec_lowercase,
};
use vstd::prelude::*;

verus! {

/// The largest upload, in bytes.
pub const UPLOAD_MAX: usize = 25 * 1024 * 1024;

/// The MIME type that goes with an extension in lower case.
pub open spec fn spec_mime(ext: Seq<char>) -> Seq<char> {
    if ext == "png"@ {
        "image/png"@
    } else if ext == "jpg"@ || ext == "jpeg"@ {
        "image/jpeg"@
    } else if ext == "gif"@ {
        "image/gif"@
    } else if ext == "webp"@ {
        "image/webp"@
    } else if ext == "svg"@ {
        "image/svg+xml"@
    } else if ext == "pdf"@ {
        "application/pdf"@
    } else if ext == "txt"@ || ext == "log"@ || ext == "md"@ {
        "text/plain; charset=utf-8"@
    } else if ext == "json"@ {
        "application/json"@
    } else {
        "application/octet-stream"@
    }
}

/// The MIME type of an extension in lower case.
pub fn mime_of_extension(ext: &str) -> (r: &'static str)
    ensures
        r@ == spec_mime(ext@),
{
    if same(ext, "png") {
        "image/png"
    } else if same(ext, "jpg") || same(ext, "jpeg") {
        "image/jpeg"
    } else if same(ext, "gif") {
        "image/gif"
    } else if same(ext, "webp") {
        "image/webp"
    } else if same(ext, "svg") {
        "image/svg+xml"
    } else if same(ext, "pdf") {
        "application/pdf"
    } else if same(ext, "txt") || same(ext, "log") || same(ext, "md") {
        "text/plain; charset=utf-8"
    } else if same(ext, "json") {
        "application/json"
    } else {
        "application/octet-stream"
    }
}

/// The MIME type of a file, by its extension.
pub fn mime_of(name: &str) -> (r: &'static str)
    ensures
        r@ == spec_mime(spec_lowercase(extension(name@))),
{
    let ext = lower_extension(name);
    mime_of_extension(ext.as_str())
}

/// Whether a character is a letter or a number, in Unicode's sense.
pub uninterp spec fn unicode_alphanumeric(c: char) -> bool;

/// `char::is_alphanumeric`. Named, not spelled out; of ASCII characters it holds of the letters
/// and digits.
#[verifier::external_body]
fn is_alphanumeric(c: char) -> (b: bool)
    ensures
        b == unicode_alphanumeric(c),
        (c as int) < 128 ==> b == is_ascii_alnum(c),
{
    c.is_alphanumeric()
}

/// Whether a character is a letter or a number, in Unicode's sense: of the ASCII ones, those from
/// `a` to `z`, `A` to `Z` and `0` to `9`.
pub open spec fn spec_alphanumeric(c: char) -> bool {
    if (c as int) < 128 {
        is_ascii_alnum(c)
    } else {
        unicode_alphanumeric(c)
    }
}

pub open spec fn sanitized_char(c: char) -> char {
    if spec_alphanumeric(c) || c == '.' || c == '-' || c == '_' {
        c
    } else {
        '_'
    }
}

/// A file name with every character that is not a letter, a number, `.`, `-` or `_` made `_`.
pub open spec fn sanitized(name: Seq<char>) -> Seq<char> {
    name.map_values(|c: char| sanitized_char(c))
}

/// Makes a file name safe to store under; the extension stays.
pub fn sanitize_name(orig: &str) -> (r: String)
    ensures
        r@ == sanitized(orig@),
        forall|i: int| 0 <= i < r@.len() ==> r@[i] != '/' && r@[i] != '\\' && r@[i] != '\0',
{
    let v = chars_of(orig);
    let mut r = String::new();
    let mut i: usize = 0;
    while i < v.len()
        invariant
            i <= v.len(),
            r@ =~= sanitized(v@.take(i as int)),
            forall|j: int| 0 <= j < r@.len() ==> r@[j] != '/' && r@[j] != '\\' && r@[j] != '\0',
        decreases v.len() - i,
    {
        let c = v[i];
        let kept = if is_alphanumeric(c) || c == '.' || c == '-' || c == '_' {
            c
        } else {
            '_'
        };
        r.push(kept);
        i += 1;
    }
    assert(v@.take(v@.len() as int) =~= v@);
    r
}

/// A sanitized name is stored as it is: sanitizing it again changes nothing.
pub proof fn a_sanitized_name_stays(name: Seq<char>)
    ensures
        sanitized(sanitized(name)) == sanitized(name),
{
    assert(sanitized(sanitized(name)) =~= sanitized(name));
}

/// The extension of a sanitized name is the sanitized extension: one of letters and digits stays
/// what it was.
pub proof fn an_extension_survives(name: Seq<char>)
    ensures
        extension(sanitized(name)) == sanitized(extension(name)),
        (forall|i: int|
            0 <= i < extension(name).len() ==> spec_alphanumeric(
                #[trigger] extension(name)[i],
            )) ==> extension(sanitized(name)) == extension(name),
    decreases name.len(),
{
    if name.len() > 0 {
        let init = name.drop_last();
        an_extension_survives(init);
        split_nonempty(init, '.');
        split_nonempty(sanitized(init), '.');
        assert(sanitized(name).drop_last() =~= sanitized(init));
        assert(extension(sanitized(name)) =~= sanitized(extension(name)));
    } else {
        assert(extension(sanitized(name)) =~= sanitized(extension(name)));
    }
    if forall|i: int|
        0 <= i < extension(name).len() ==> spec_alphanumeric(#[trigger] extension(name)[i]) {
        assert(sanitized(extension(name)) =~= extension(name));
    }
}

/// A picture that can hold a script is never shown inline.
pub proof fn a_scripted_picture_is_never_inline(ext: Seq<char>)
    requires
        spec_mime(ext) == "image/svg+xml"@,
    ensures
        spec_active_ext(ext),
{
    reveal_strlit("image/svg+xml");
    reveal_strlit("image/png");
    reveal_strlit("image/jpeg");
    reveal_strlit("image/gif");
    reveal_strlit("image/webp");
    reveal_strlit("application/pdf");
    reveal_strlit("text/plain; charset=utf-8");
    reveal_strlit("application/json");
    reveal_strlit("application/octet-stream");
    assert("image/svg+xml"@.len() == 13);
    assert("image/svg+xml"@[0] == 'i');
    assert("text/plain; charset=utf-8"@.len() == 25);
}

/// Whether the disk store takes a key: one that climbs is refused.
pub fn key_ok(key: &str) -> (b: bool)
    ensures
        b == !spec_contains(key@, ".."@),
{
    !contains(key, "..")
}

/// A stored name is as long as the name that was given, and differs from it only where a character
/// is not a letter, a number, a dot, a dash or an underscore: there an underscore stands.
pub proof fn a_stored_name_keeps_safe_characters(name: Seq<char>, i: int)
    requires
        0 <= i < name.len(),
    ensures
        sanitized(name).len() == name.len(),
        ({
            let c = name[i];
            let safe = 'a' <= c <= 'z' || 'A' <= c <= 'Z' || '0' <= c <= '9' || c == '.' || c == '-'
                || c == '_' || (c as int >= 128 && unicode_alphanumeric(c));
            &&& safe ==> sanitized(name)[i] == c
            &&& !safe ==> sanitized(name)[i] == '_'
        }),
{
}

/// Each type goes with its extensions, and what has none of them is a mere row of bytes.
pub proof fn a_type_goes_with_its_extensions(ext: Seq<char>)
    ensures
        ext == "png"@ ==> spec_mime(ext) == "image/png"@,
        ext == "jpg"@ || ext == "jpeg"@ ==> spec_mime(ext) == "image/jpeg"@,
        ext == "gif"@ ==> spec_mime(ext) == "image/gif"@,
        ext == "webp"@ ==> spec_mime(ext) == "image/webp"@,
        ext == "svg"@ ==> spec_mime(ext) == "image/svg+xml"@,
        ext == "pdf"@ ==> spec_mime(ext) == "application/pdf"@,
        ext == "txt"@ || ext == "log"@ || ext == "md"@ ==> spec_mime(ext)
            == "text/plain; charset=utf-8"@,
        ext == "json"@ ==> spec_mime(ext) == "application/json"@,
        ext != "png"@ && ext != "jpg"@ && ext != "jpeg"@ && ext != "gif"@ && ext != "webp"@ && ext
            != "svg"@ && ext != "pdf"@ && ext != "txt"@ && ext != "log"@ && ext != "md"@ && ext
            != "json"@ ==> spec_mime(ext) == "application/octet-stream"@,
{
    reveal_strlit("png");
    reveal_strlit("jpg");
    reveal_strlit("jpeg");
    reveal_strlit("gif");
    reveal_strlit("webp");
    reveal_strlit("svg");
    reveal_strlit("pdf");
    reveal_strlit("txt");
    reveal_strlit("log");
    reveal_strlit("md");
    reveal_strlit("json");
    assert("png"@[0] == 'p' && "png"@[1] == 'n' && "jpg"@[0] == 'j' && "jpeg"@[0] == 'j' && "gif"@[0]
        == 'g' && "webp"@[0] == 'w' && "svg"@[0] == 's' && "pdf"@[0] == 'p' && "pdf"@[1] == 'd'
        && "txt"@[0] == 't' && "log"@[0] == 'l' && "md"@[0] == 'm' && "json"@[0] == 'j');
    assert("png"@.len() == 3 && "jpg"@.len() == 3 && "jpeg"@.len() == 4 && "json"@.len() == 4
        && "jpeg"@[1] == 'p' && "json"@[1] == 's');
}

} // verus!
