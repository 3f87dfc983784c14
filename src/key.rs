//! The cache key of a file: the name of its thumbnail, derived from its URI.
use vstd::prelude::*;
use vstd::string::*;
use crate::uri::{file_uri, lemma_file_uri_injective};
use crate::xdg::{join, push_path};

verus! {

/// The MD5 digest of the UTF-8 text `s`, as 32 lower-case hexadecimal digits.
pub uninterp spec fn md5_hex(s: Seq<char>) -> Seq<char>;

/// Whether `c` is a lower-case hexadecimal digit.
pub open spec fn is_lower_hex(c: char) -> bool {
    ('0' <= c && c <= '9') || ('a' <= c && c <= 'f')
}

/// Relies on `md5::compute` and the `LowerHex` format of its digest: the
/// digest of the bytes of `s`, each of its sixteen bytes as two lower-case
/// hexadecimal digits.
#[verifier::external_body]
fn md5_hex_of(s: &str) -> (r: String)
    ensures
        r@ == md5_hex(s@),
        r@.len() == 32,
        forall|i: int| 0 <= i < 32 ==> is_lower_hex(#[trigger] r@[i]),
{
    format!("{:x}", md5::compute(s))
}

/// `.png` as characters.
pub open spec fn png_suffix() -> Seq<char> {
    seq!['.', 'p', 'n', 'g']
}

/// The name of the thumbnail of the file with URI `uri`.
pub open spec fn thumbnail_name_of(uri: Seq<char>) -> Seq<char> {
    md5_hex(uri) + png_suffix()
}

/// The name of a thumbnail whose key, in hexadecimal, is `digest`.
pub fn thumbnail_file(digest: &str) -> (r: String)
    ensures
        r@ == digest@ + png_suffix(),
{
    let mut name = String::from_str(digest);
    name.append(".png");
    proof {
        reveal_strlit(".png");
    }
    assert(name@ =~= digest@ + png_suffix());
    name
}

/// The name of the thumbnail of the file with URI `uri`: the MD5 digest of
/// the URI in lower-case hexadecimal, and `.png`.
pub fn thumbnail_name(uri: &str) -> (r: String)
    ensures
        r@ == thumbnail_name_of(uri@),
        r@.len() == 36,
        r@[0] != '/',
{
    let digest = md5_hex_of(uri);
    assert(is_lower_hex(digest@[0]));
    thumbnail_file(digest.as_str())
}

/// Where the thumbnail of the file with URI `uri` lies, given the directory
/// `dir` of the thumbnails of the wanted flavor.
pub fn thumbnail_path(dir: &str, uri: &str) -> (r: String)
    ensures
        r@ == join(dir@, thumbnail_name_of(uri@)),
{
    let name = thumbnail_name(uri);
    let mut path = String::from_str(dir);
    push_path(&mut path, name.as_str());
    path
}

/// The cache key depends on the path alone: equal paths give equal URIs
/// and equal thumbnail names, and distinct paths give distinct URIs.
pub proof fn lemma_cache_key(p: Seq<char>, q: Seq<char>)
    ensures
        p == q ==> file_uri(p) == file_uri(q) && thumbnail_name_of(file_uri(p))
            == thumbnail_name_of(file_uri(q)),
        p != q ==> file_uri(p) != file_uri(q),
{
    if p != q {
        lemma_file_uri_injective(p, q);
    }
}

} // verus!
