//! Where thumbnails of a flavor are kept under the cache directory.
use vstd::prelude::*;
use vstd::string::*;

verus! {

/// `base` with the path `seg` added, as `PathBuf::push` does it on Unix: an
/// absolute `seg` takes the place of `base`; otherwise a `/` goes between
/// them unless `base` is empty or already ends with one.
pub open spec fn join(base: Seq<char>, seg: Seq<char>) -> Seq<char> {
    if seg.len() > 0 && seg[0] == '/' {
        seg
    } else if base.len() > 0 && base.last() != '/' {
        base + seq!['/'] + seg
    } else {
        base + seg
    }
}

/// `thumbnails` as characters.
pub open spec fn thumbnails() -> Seq<char> {
    seq!['t', 'h', 'u', 'm', 'b', 'n', 'a', 'i', 'l', 's']
}

/// The directory of the thumbnails of `flavor` under `cache_dir`.
pub open spec fn thumbnails_dir_of(cache_dir: Seq<char>, flavor: Seq<char>) -> Seq<char> {
    join(join(cache_dir, thumbnails()), flavor)
}

/// Adds the path `seg` to `base`, as `PathBuf::push` does on Unix.
pub fn push_path(base: &mut String, seg: &str)
    ensures
        final(base)@ == join(old(base)@, seg@),
{
    if !seg.is_empty() && seg.get_char(0) == '/' {
        *base = String::from_str(seg);
        return;
    }
    let n = base.as_str().unicode_len();
    if n > 0 && base.as_str().get_char(n - 1) != '/' {
        base.append("/");
        proof {
            reveal_strlit("/");
        }
    }
    base.append(seg);
    assert(final(base)@ =~= join(old(base)@, seg@));
}

/// The directory that holds the thumbnails of `flavor`:
/// `<cache_dir>/thumbnails/<flavor>`, each part added as a path.
pub fn thumbnails_dir(cache_dir: &str, flavor: &str) -> (r: String)
    ensures
        r@ == thumbnails_dir_of(cache_dir@, flavor@),
{
    let mut dir = String::from_str(cache_dir);
    push_path(&mut dir, "thumbnails");
    proof {
        reveal_strlit("thumbnails");
    }
    push_path(&mut dir, flavor);
    dir
}

} // verus!
