//! Same-origin sockets, signed credentials, and files that a browser would run.

use crate::text::{
    a_text_is_found_where_it_first_stands, find, lowercase, same, spec_contains, spec_find,
    spec_lowercase, spec_split, split, split_nonempty, split_without, texts, what_follows_the_last,
};
use hmac::Mac;
use vstd::prelude::*;

verus! {

/// The host part of an origin: what stands between the first `://` and the next, or the whole
/// text where there is none.
pub open spec fn origin_host(origin: Seq<char>) -> Seq<char> {
    match spec_find(origin, "://"@) {
        None => origin,
        Some(i) => {
            let rest = origin.skip(i + 3);
            match spec_find(rest, "://"@) {
                None => rest,
                Some(j) => rest.take(j),
            }
        },
    }
}

/// Whether a socket may be opened: no origin means no browser, else its host is the host that
/// was asked.
pub fn origin_ok(origin: Option<&str>, host: Option<&str>) -> (b: bool)
    ensures
        b == match origin {
            None => true,
            Some(o) => host is Some && origin_host(o@) == host->0@,
        },
{
    let origin = match origin {
        None => {
            return true;
        },
        Some(o) => o,
    };
    let host = match host {
        None => {
            return false;
        },
        Some(h) => h,
    };
    proof {
        reveal_strlit("://");
    }
    match find(origin, "://") {
        None => same(origin, host),
        Some(i) => {
            let n: usize = origin.unicode_len();
            let rest = origin.substring_char(i + 3, n);
            assert(origin@.skip(i + 3) =~= rest@);
            match find(rest, "://") {
                None => same(rest, host),
                Some(j) => {
                    let first = rest.substring_char(0, j);
                    assert(rest@.take(j as int) =~= first@);
                    same(first, host)
                },
            }
        },
    }
}

/// The HMAC-SHA1 code of a message under a key.
pub uninterp spec fn hmac_sha1_code(key: Seq<u8>, msg: Seq<u8>) -> Seq<u8>;

/// `hmac::Hmac::<sha1::Sha1>`: keyed with `key`, fed `msg`, finalized. The code is named, not
/// spelled out; it is 20 bytes long, and keying takes a key of any length.
#[verifier::external_body]
fn hmac_sha1(key: &[u8], msg: &[u8]) -> (code: Vec<u8>)
    ensures
        code@ == hmac_sha1_code(key@, msg@),
        code@.len() == 20,
{
    let Ok(mut mac) = hmac::Hmac::<sha1::Sha1>::new_from_slice(key) else {
        return Vec::new();
    };
    mac.update(msg);
    mac.finalize().into_bytes().to_vec()
}

/// The credential of a relay user: the Base64 of the HMAC-SHA1 of the user's name.
pub fn turn_credential(secret: &[u8], user: &[u8]) -> (r: String)
    ensures
        r@ == base64(hmac_sha1_code(secret@, user@)),
{
    let code = hmac_sha1(secret, user);
    base64_std(code.as_slice())
}

/// The character of a group of six bits.
pub open spec fn base64_char(n: int) -> char {
    if n < 26 {
        ('A' as int + n) as char
    } else if n < 52 {
        ('a' as int + (n - 26)) as char
    } else if n < 62 {
        ('0' as int + (n - 52)) as char
    } else if n == 62 {
        '+'
    } else {
        '/'
    }
}

fn base64_digit(n: u8) -> (c: char)
    requires
        n < 64,
    ensures
        c == base64_char(n as int),
{
    if n < 26 {
        let u: u8 = 65 + n;
        u as char
    } else if n < 52 {
        let u: u8 = 97 + (n - 26);
        u as char
    } else if n < 62 {
        let u: u8 = 48 + (n - 52);
        u as char
    } else if n == 62 {
        '+'
    } else {
        '/'
    }
}

/// Standard Base64 with padding: three bytes make four characters.
pub open spec fn base64(data: Seq<u8>) -> Seq<char>
    decreases data.len(),
{
    if data.len() == 0 {
        Seq::empty()
    } else {
        let b0 = data[0] as int;
        let b1 = if data.len() > 1 { data[1] as int } else { 0 };
        let b2 = if data.len() > 2 { data[2] as int } else { 0 };
        seq![
            base64_char(b0 / 4),
            base64_char((b0 % 4) * 16 + b1 / 16),
            if data.len() > 1 { base64_char((b1 % 16) * 4 + b2 / 64) } else { '=' },
            if data.len() > 2 { base64_char(b2 % 64) } else { '=' },
        ] + base64(if data.len() > 3 { data.skip(3) } else { Seq::empty() })
    }
}

/// Encodes bytes in standard Base64.
pub fn base64_std(data: &[u8]) -> (out: String)
    ensures
        out@ == base64(data@),
{
    let mut out = String::new();
    let mut i: usize = 0;
    let n: usize = data.len();
    assert(data@.skip(0) =~= data@);
    assert(out@ + base64(data@) =~= base64(data@));
    while i < n
        invariant
            n == data@.len(),
            i <= n,
            base64(data@) == out@ + base64(data@.skip(i as int)),
        decreases n - i,
    {
        let b0: u8 = data[i];
        let left: usize = n - i;
        let b1: u8 = if left > 1 { data[i + 1] } else { 0 };
        let b2: u8 = if left > 2 { data[i + 2] } else { 0 };
        let ghost rest = data@.skip(i as int);
        let ghost before = out@;
        let ghost quad = seq![
            base64_char(b0 as int / 4),
            base64_char((b0 as int % 4) * 16 + b1 as int / 16),
            if left > 1 { base64_char((b1 as int % 16) * 4 + b2 as int / 64) } else { '=' },
            if left > 2 { base64_char(b2 as int % 64) } else { '=' },
        ];
        out.push(base64_digit(b0 / 4));
        out.push(base64_digit((b0 % 4) * 16 + b1 / 16));
        out.push(if left > 1 { base64_digit((b1 % 16) * 4 + b2 / 64) } else { '=' });
        out.push(if left > 2 { base64_digit(b2 % 64) } else { '=' });
        assert(out@ =~= before + quad);
        let next: usize = if left > 3 { i + 3 } else { n };
        proof {
            let tail = if rest.len() > 3 { rest.skip(3) } else { Seq::empty() };
            assert(data@.skip(next as int) =~= tail);
            assert(base64(rest) == quad + base64(tail));
            assert(before + (quad + base64(tail)) =~= before + quad + base64(tail));
        }
        i = next;
    }
    assert(data@.skip(n as int) =~= Seq::empty());
    assert(out@ + Seq::<char>::empty() =~= out@);
    out
}

/// Three bytes make four characters: the length of an encoding is fixed by the length of the
/// data, and always a multiple of four.
pub proof fn base64_length(data: Seq<u8>)
    ensures
        base64(data).len() == 4 * ((data.len() + 2) / 3),
    decreases data.len(),
{
    if data.len() > 3 {
        base64_length(data.skip(3));
    } else if data.len() > 0 {
        base64_length(Seq::empty());
    }
}

proof fn base64_chars_differ(a: int, b: int)
    requires
        0 <= a < 64,
        0 <= b < 64,
        base64_char(a) == base64_char(b),
    ensures
        a == b,
        base64_char(a) != '=',
{
}

/// An encoding can be decoded: no two byte strings have the same one.
pub proof fn base64_tells_bytes_apart(a: Seq<u8>, b: Seq<u8>)
    requires
        base64(a) == base64(b),
    ensures
        a == b,
    decreases a.len(),
{
    base64_length(a);
    base64_length(b);
    if a.len() == 0 || b.len() == 0 {
        assert(a.len() == 0 && b.len() == 0);
        assert(a =~= b);
    } else {
        let ea = base64(a);
        let eb = base64(b);
        let ta = if a.len() > 3 { a.skip(3) } else { Seq::empty() };
        let tb = if b.len() > 3 { b.skip(3) } else { Seq::empty() };
        let a0 = a[0] as int;
        let b0 = b[0] as int;
        let a1 = if a.len() > 1 { a[1] as int } else { 0 };
        let b1 = if b.len() > 1 { b[1] as int } else { 0 };
        let a2 = if a.len() > 2 { a[2] as int } else { 0 };
        let b2 = if b.len() > 2 { b[2] as int } else { 0 };
        assert(ea.skip(4) =~= base64(ta));
        assert(eb.skip(4) =~= base64(tb));
        assert(ea[0] == eb[0] && ea[1] == eb[1] && ea[2] == eb[2] && ea[3] == eb[3]);
        base64_chars_differ(a0 / 4, b0 / 4);
        base64_chars_differ((a0 % 4) * 16 + a1 / 16, (b0 % 4) * 16 + b1 / 16);
        assert(a0 == b0);
        assert(a1 / 16 == b1 / 16);
        base64_chars_differ((a1 % 16) * 4 + a2 / 64, (a1 % 16) * 4 + a2 / 64);
        base64_chars_differ((b1 % 16) * 4 + b2 / 64, (b1 % 16) * 4 + b2 / 64);
        base64_chars_differ(a2 % 64, a2 % 64);
        base64_chars_differ(b2 % 64, b2 % 64);
        assert(a.len() > 1 <==> b.len() > 1);
        assert(a.len() > 2 <==> b.len() > 2);
        if a.len() > 1 {
            base64_chars_differ((a1 % 16) * 4 + a2 / 64, (b1 % 16) * 4 + b2 / 64);
            assert(a1 == b1);
            assert(a2 / 64 == b2 / 64);
        }
        if a.len() > 2 {
            base64_chars_differ(a2 % 64, b2 % 64);
            assert(a2 == b2);
        }
        base64_tells_bytes_apart(ta, tb);
        base64_length(ta);
        base64_length(tb);
        assert(ta.len() == tb.len());
        assert(a.len() == b.len());
        assert forall|i: int| 0 <= i < a.len() implies a[i] == b[i] by {
            if i >= 3 {
                assert(ta[i - 3] == a[i]);
                assert(tb[i - 3] == b[i]);
            }
        }
        assert(a =~= b);
    }
}

/// What follows the last dot of a name, or all of it.
pub open spec fn extension(name: Seq<char>) -> Seq<char> {
    spec_split(name, '.').last()
}

/// What follows the last dot of a name, in lower case.
pub(crate) fn lower_extension(name: &str) -> (r: String)
    ensures
        r@ == spec_lowercase(extension(name@)),
{
    let mut parts = split(name, '.');
    proof {
        split_nonempty(name@, '.');
    }
    assert(parts@.len() == texts(parts@).len());
    assert(texts(parts@).last() == parts@.last()@);
    match parts.pop() {
        Some(last) => lowercase(last.as_str()),
        None => String::new(),
    }
}

pub open spec fn spec_active_ext(lowered: Seq<char>) -> bool {
    lowered == "svg"@ || lowered == "html"@ || lowered == "htm"@ || lowered == "xhtml"@ || lowered
        == "xml"@
}

/// Whether a browser would run a file with that extension.
pub fn is_active_ext(lowered: &str) -> (b: bool)
    ensures
        b == spec_active_ext(lowered@),
{
    same(lowered, "svg") || same(lowered, "html") || same(lowered, "htm") || same(lowered, "xhtml")
        || same(lowered, "xml")
}

/// Whether a browser would run the file when it is opened directly. Such a file is only ever
/// sent as a download.
pub fn is_active_content_ext(name: &str) -> (b: bool)
    ensures
        b == spec_active_ext(spec_lowercase(extension(name@))),
{
    let ext = lower_extension(name);
    is_active_ext(ext.as_str())
}

/// The headers that every response carries.
pub fn security_headers() -> (r: Vec<(&'static str, &'static str)>)
    ensures
        r@ == seq![
            ("X-Content-Type-Options", "nosniff"),
            ("X-Frame-Options", "DENY"),
            ("Referrer-Policy", "same-origin"),
        ],
{
    vec![
        ("X-Content-Type-Options", "nosniff"),
        ("X-Frame-Options", "DENY"),
        ("Referrer-Policy", "same-origin"),
    ]
}

/// How a stored file is sent, where it must not be shown inline.
pub fn disposition_of(file: &str) -> (r: Option<&'static str>)
    ensures
        match r {
            Some(d) => spec_active_ext(spec_lowercase(extension(file@))) && d@ == "attachment"@,
            None => !spec_active_ext(spec_lowercase(extension(file@))),
        },
{
    if is_active_content_ext(file) {
        Some("attachment")
    } else {
        None
    }
}

/// The host of an origin is what follows its scheme: neither a scheme nor the lack of one changes
/// what host is meant.
pub proof fn a_host_follows_its_scheme(scheme: Seq<char>, host: Seq<char>)
    requires
        !spec_contains(host, "://"@),
        spec_find(scheme + "://"@ + host, "://"@) == Some(scheme.len() as int),
    ensures
        origin_host(scheme + "://"@ + host) == host,
        origin_host(host) == host,
{
    reveal_strlit("://");
    let o = scheme + "://"@ + host;
    assert(o.skip(scheme.len() as int + 3) =~= host);
    a_text_is_found_where_it_first_stands(host, "://"@);
    if spec_find(host, "://"@) is Some {
        let k = spec_find(host, "://"@)->0;
        assert(host.subrange(k, k + "://"@.len()) == "://"@);
    }
}

/// A file is run by a browser exactly if its extension, in lower case, is one of those that hold
/// scripts.
pub proof fn scripts_are_told_by_the_extension(lowered: Seq<char>)
    ensures
        spec_active_ext(lowered) <==> seq!["svg"@, "html"@, "htm"@, "xhtml"@, "xml"@].contains(
            lowered,
        ),
{
    let all = seq!["svg"@, "html"@, "htm"@, "xhtml"@, "xml"@];
    assert(all[0] == "svg"@ && all[1] == "html"@ && all[2] == "htm"@ && all[3] == "xhtml"@ && all[4]
        == "xml"@);
    if spec_active_ext(lowered) {
        assert(all.contains(lowered)) by {
            if lowered == "svg"@ {
                assert(all[0] == lowered);
            } else if lowered == "html"@ {
                assert(all[1] == lowered);
            } else if lowered == "htm"@ {
                assert(all[2] == lowered);
            } else if lowered == "xhtml"@ {
                assert(all[3] == lowered);
            } else {
                assert(all[4] == lowered);
            }
        }
    }
    if all.contains(lowered) {
        let i = choose|i: int| 0 <= i < all.len() && all[i] == lowered;
        assert(i == 0 || i == 1 || i == 2 || i == 3 || i == 4);
    }
}

/// The extension of a name is what follows its last dot; one without a dot is all extension.
pub proof fn an_extension_follows_the_last_dot(stem: Seq<char>, ext: Seq<char>)
    requires
        !ext.contains('.'),
    ensures
        extension(stem + seq!['.'] + ext) == ext,
        extension(ext) == ext,
{
    what_follows_the_last(stem + seq!['.'] + ext, '.');
    what_follows_the_last(ext, '.');
    last_piece_of_joined(stem, ext);
    split_without(ext, '.');
}

proof fn last_piece_of_joined(stem: Seq<char>, ext: Seq<char>)
    requires
        !ext.contains('.'),
    ensures
        extension(stem + seq!['.'] + ext) == ext,
    decreases ext.len(),
{
    let name = stem + seq!['.'] + ext;
    if ext.len() == 0 {
        assert(name.last() == '.');
        assert(spec_split(name, '.').last() =~= ext);
    } else {
        let init = ext.drop_last();
        assert(name.drop_last() =~= stem + seq!['.'] + init);
        assert forall|i: int| 0 <= i < init.len() implies init[i] != '.' by {
            assert(init[i] == ext[i]);
        }
        last_piece_of_joined(stem, init);
        assert(name.last() == ext.last());
        assert(ext[ext.len() - 1] == ext.last());
        split_nonempty(name.drop_last(), '.');
        assert(spec_split(name, '.').last() =~= init.push(ext.last()));
        assert(init.push(ext.last()) =~= ext);
    }
}

/// Each group of three bytes is encoded on its own, from the front.
pub proof fn base64_goes_by_threes(a: Seq<u8>, b: Seq<u8>)
    requires
        a.len() % 3 == 0,
    ensures
        base64(a + b) == base64(a) + base64(b),
    decreases a.len(),
{
    if a.len() == 0 {
        assert(a + b =~= b);
        assert(base64(a) + base64(b) =~= base64(b));
    } else {
        base64_goes_by_threes(a.skip(3), b);
        let whole = a + b;
        assert(whole[0] == a[0] && whole[1] == a[1] && whole[2] == a[2]);
        if whole.len() > 3 {
            assert(whole.skip(3) =~= a.skip(3) + b);
        } else {
            assert(a.skip(3) + b =~= Seq::<u8>::empty());
        }
        if a.len() == 3 {
            assert(a.skip(3) =~= Seq::<u8>::empty());
        }
        assert(base64(whole) =~= base64(a) + base64(b));
    }
}

/// Three bytes are four characters of six bits each, the highest bits first.
pub proof fn base64_of_three_bytes(x: u8, y: u8, z: u8)
    ensures
        ({
            let n = x as int * 65536 + y as int * 256 + z as int;
            base64(seq![x, y, z]) == seq![
                base64_char(n / 262144),
                base64_char(n / 4096 % 64),
                base64_char(n / 64 % 64),
                base64_char(n % 64),
            ]
        }),
{
    let data = seq![x, y, z];
    let n = x as int * 65536 + y as int * 256 + z as int;
    six_bits_each(x as int, y as int, z as int);
    assert(base64(Seq::<u8>::empty()) =~= Seq::<char>::empty());
    assert(data[0] == x && data[1] == y && data[2] == z);
    assert(base64(data) =~= seq![
        base64_char(n / 262144),
        base64_char(n / 4096 % 64),
        base64_char(n / 64 % 64),
        base64_char(n % 64),
    ]);
}

proof fn six_bits_each(x: int, y: int, z: int)
    requires
        0 <= x < 256,
        0 <= y < 256,
        0 <= z < 256,
    ensures
        (x * 65536 + y * 256 + z) / 262144 == x / 4,
        (x * 65536 + y * 256 + z) / 4096 % 64 == (x % 4) * 16 + y / 16,
        (x * 65536 + y * 256 + z) / 64 % 64 == (y % 16) * 4 + z / 64,
        (x * 65536 + y * 256 + z) % 64 == z % 64,
{
    let n = x * 65536 + y * 256 + z;
    let (a, b) = (x / 4, x % 4);
    let (c, d) = (y / 16, y % 16);
    let (e, f) = (z / 64, z % 64);
    assert(n == a * 262144 + b * 65536 + c * 4096 + d * 256 + e * 64 + f);
    assert(n / 262144 == a);
    assert(n / 4096 == a * 64 + b * 16 + c);
    assert(n / 64 == (a * 64 + b * 16 + c) * 64 + d * 4 + e);
}

} // verus!
