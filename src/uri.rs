//! File URIs in the escaping convention of the thumbnail service.
use vstd::prelude::*;
use vstd::string::*;
use vstd::std_specs::iter::IteratorSpec;

verus! {

broadcast use vstd::std_specs::iter::group_iter_axioms;

/// The scheme and authority that start every file URI.
pub const FILE_PREFIX: &'static str = "file://";

/// `file://` as characters.
pub open spec fn file_prefix() -> Seq<char> {
    seq!['f', 'i', 'l', 'e', ':', '/', '/']
}

/// Whether `c` is written as `%XX` in a URI: the control characters but
/// U+0010, space, `"`, `#`, `%`, `<` and `>`.
pub open spec fn escaped(c: char) -> bool {
    ((c as u32) < 0x20 && (c as u32) != 0x10) || c == ' ' || c == '"' || c == '#' || c == '%'
        || c == '<' || c == '>'
}

/// The upper-case hexadecimal digit for `d`, which is below 16.
pub open spec fn hex_digit(d: u32) -> char {
    if d < 10 {
        ((d + 48) as u8) as char
    } else {
        ((d + 55) as u8) as char
    }
}

/// How `c` is written in a URI.
pub open spec fn escape(c: char) -> Seq<char> {
    if escaped(c) {
        seq!['%', hex_digit((c as u32) / 16), hex_digit((c as u32) % 16)]
    } else {
        seq![c]
    }
}

/// How the path `s` is written in a URI, one character after the other.
pub open spec fn encode(s: Seq<char>) -> Seq<char>
    decreases s.len(),
{
    if s.len() == 0 {
        Seq::empty()
    } else {
        escape(s[0]) + encode(s.subrange(1, s.len() as int))
    }
}

/// The file URI of the absolute path `s`.
pub open spec fn file_uri(s: Seq<char>) -> Seq<char> {
    file_prefix() + encode(s)
}

proof fn lemma_encode_push(s: Seq<char>, c: char)
    ensures
        encode(s.push(c)) == encode(s) + escape(c),
    decreases s.len(),
{
    if s.len() == 0 {
        assert(s.push(c).subrange(1, 1) =~= Seq::<char>::empty());
        assert(encode(s.push(c).subrange(1, 1)) =~= Seq::<char>::empty());
        assert(encode(s.push(c)) =~= escape(c));
    } else {
        let t = s.subrange(1, s.len() as int);
        lemma_encode_push(t, c);
        assert(s.push(c).subrange(1, s.len() as int + 1) =~= t.push(c));
        assert(encode(s.push(c)) =~= encode(s) + escape(c));
    }
}

/// Relies on `String::push`: appends `c` to `s`.
#[verifier::external_body]
fn push_char(s: &mut String, c: char)
    ensures
        final(s)@ == old(s)@.push(c),
{
    s.push(c)
}

/// The upper-case hexadecimal digit for `d`.
fn hex_char(d: u32) -> (c: char)
    requires
        d < 16,
    ensures
        c == hex_digit(d),
{
    if d < 10 {
        ((d + 48) as u8) as char
    } else {
        ((d + 55) as u8) as char
    }
}

/// The file URI of the path `p`: `file://` and then `p`, with each control
/// character but U+0010, space, `"`, `#`, `%`, `<` and `>` written as `%`
/// and two upper-case hexadecimal digits. Other characters, non-ASCII ones
/// included, stand as they are.
pub fn file(p: &str) -> (r: Option<String>)
    ensures
        r is Some,
        r->0@ == file_uri(p@),
{
    let mut out = String::from_str(FILE_PREFIX);
    proof {
        reveal_strlit("file://");
        assert(out@ =~= file_prefix());
    }
    let mut it = p.chars();
    let ghost mut done: Seq<char> = Seq::empty();
    loop
        invariant
            p@ == done + it.remaining(),
            out@ == file_prefix() + encode(done),
            it.decrease() is Some,
        ensures
            out@ == file_uri(p@),
        decreases it.decrease()->0,
    {
        match it.next() {
            Some(c) => {
                proof {
                    lemma_encode_push(done, c);
                }
                if escaped_char(c) {
                    push_char(&mut out, '%');
                    push_char(&mut out, hex_char((c as u32) / 16));
                    push_char(&mut out, hex_char((c as u32) % 16));
                } else {
                    push_char(&mut out, c);
                }
                proof {
                    assert(p@ =~= done.push(c) + it.remaining());
                    done = done.push(c);
                }
                assert(out@ =~= file_prefix() + encode(done));
            },
            None => {
                assert(done =~= p@);
                break;
            },
        }
    }
    Some(out)
}

/// Whether `c` is written as `%XX` in a URI.
fn escaped_char(c: char) -> (r: bool)
    ensures
        r == escaped(c),
{
    let v = c as u32;
    (v < 0x20 && v != 0x10) || c == ' ' || c == '"' || c == '#' || c == '%' || c == '<' || c
        == '>'
}

proof fn lemma_escape_injective(a: char, b: char, x: Seq<char>, y: Seq<char>)
    requires
        escape(a) + x == escape(b) + y,
    ensures
        a == b,
        x == y,
{
    let ea = escape(a);
    let eb = escape(b);
    assert((escape(a) + x)[0] == ea[0]);
    assert((escape(b) + y)[0] == eb[0]);
    if escaped(a) {
        assert(escaped(b));
        assert((escape(a) + x)[1] == ea[1]);
        assert((escape(b) + y)[1] == eb[1]);
        assert((escape(a) + x)[2] == ea[2]);
        assert((escape(b) + y)[2] == eb[2]);
        let (va, vb) = (a as u32, b as u32);
        assert(va / 16 == vb / 16);
        assert(va % 16 == vb % 16);
        assert(va == vb);
    } else {
        assert(!escaped(b));
    }
    assert(ea == eb);
    assert(x =~= (escape(a) + x).subrange(ea.len() as int, (escape(a) + x).len() as int));
    assert(y =~= (escape(b) + y).subrange(eb.len() as int, (escape(b) + y).len() as int));
}

proof fn lemma_encode_injective(p: Seq<char>, q: Seq<char>)
    requires
        encode(p) == encode(q),
    ensures
        p == q,
    decreases p.len(),
{
    if p.len() == 0 {
        if q.len() > 0 {
            assert(encode(q).len() >= escape(q[0]).len());
        }
        assert(p =~= q);
    } else {
        if q.len() == 0 {
            assert(encode(p).len() >= escape(p[0]).len());
        }
        let pt = p.subrange(1, p.len() as int);
        let qt = q.subrange(1, q.len() as int);
        lemma_escape_injective(p[0], q[0], encode(pt), encode(qt));
        lemma_encode_injective(pt, qt);
        assert(p =~= seq![p[0]] + pt);
        assert(q =~= seq![q[0]] + qt);
    }
}

/// Distinct paths have distinct file URIs: the escaping loses nothing, so
/// no two paths share a URI, and hence a thumbnail name derived from it.
pub proof fn lemma_file_uri_injective(p: Seq<char>, q: Seq<char>)
    requires
        p != q,
    ensures
        file_uri(p) != file_uri(q),
{
    if file_uri(p) == file_uri(q) {
        assert(encode(p) =~= file_uri(p).subrange(7, file_uri(p).len() as int));
        assert(encode(q) =~= file_uri(q).subrange(7, file_uri(q).len() as int));
        lemma_encode_injective(p, q);
    }
}

/// The path that the file URI `uri` names: what follows `file://`, or
/// `None` where `uri` does not start so.
pub fn path_of(uri: &str) -> (r: Option<String>)
    ensures
        r is Some <==> uri@.len() >= 7 && uri@.subrange(0, 7) == file_prefix(),
        r is Some ==> r->0@ == uri@.subrange(7, uri@.len() as int),
{
    let n = uri.unicode_len();
    if n < 7 {
        return None;
    }
    let prefixed = uri.get_char(0) == 'f' && uri.get_char(1) == 'i' && uri.get_char(2) == 'l'
        && uri.get_char(3) == 'e' && uri.get_char(4) == ':' && uri.get_char(5) == '/'
        && uri.get_char(6) == '/';
    if !prefixed {
        assert(uri@.subrange(0, 7) != file_prefix()) by {
            if uri@.subrange(0, 7) == file_prefix() {
                assert(uri@.subrange(0, 7)[0] == uri@[0]);
                assert(uri@.subrange(0, 7)[1] == uri@[1]);
                assert(uri@.subrange(0, 7)[2] == uri@[2]);
                assert(uri@.subrange(0, 7)[3] == uri@[3]);
                assert(uri@.subrange(0, 7)[4] == uri@[4]);
                assert(uri@.subrange(0, 7)[5] == uri@[5]);
                assert(uri@.subrange(0, 7)[6] == uri@[6]);
            }
        }
        return None;
    }
    assert(uri@.subrange(0, 7) =~= file_prefix());
    Some(String::from_str(uri.substring_char(7, n)))
}

} // verus!
