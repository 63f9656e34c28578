use vstd::prelude::*;
use vstd::string::StringSliceAdditionalSpecFns;

verus! {

/// `/`, the path separator.
pub const SLASH: u8 = 47;

/// `.`, which sets off a file name's extension.
pub const DOT: u8 = 46;

/// Position of the last `c` in `s`, or `-1` when `c` does not occur.
pub open spec fn last_index(s: Seq<u8>, c: u8) -> int
    decreases s.len(),
{
    if s.len() == 0 {
        -1
    } else if s.last() == c {
        s.len() - 1
    } else {
        last_index(s.drop_last(), c)
    }
}

/// The path component `.`.
pub open spec fn current_dir() -> Seq<u8> {
    seq![DOT]
}

/// The path component `..`.
pub open spec fn parent_dir() -> Seq<u8> {
    seq![DOT, DOT]
}

/// The final component of a path, as `std::path::Path::file_name` reads it:
/// trailing separators and `.` components are passed over, and a path that
/// ends in `..` or holds no component has no file name.
pub open spec fn file_name(path: Seq<u8>) -> Option<Seq<u8>>
    decreases path.len(),
{
    if path.len() == 0 {
        None
    } else {
        let comp = path.subrange(last_index(path, SLASH) + 1, path.len() as int);
        if comp.len() == 0 || comp == current_dir() {
            file_name(path.drop_last())
        } else if comp == parent_dir() {
            None
        } else {
            Some(comp)
        }
    }
}

/// The extension of a file name: what follows its last `.`. A name without a
/// `.`, or whose only `.` leads it, has none.
pub open spec fn extension(name: Seq<u8>) -> Option<Seq<u8>> {
    let k = last_index(name, DOT);
    if k <= 0 {
        None
    } else {
        Some(name.subrange(k + 1, name.len() as int))
    }
}

/// The extension `mp4`.
pub open spec fn ext_mp4() -> Seq<u8> {
    seq![109u8, 112u8, 52u8]
}

/// The extension `mp3`.
pub open spec fn ext_mp3() -> Seq<u8> {
    seq![109u8, 112u8, 51u8]
}

/// The MIME type served for a file: by its extension, `video/mp4` for `mp4`,
/// `audio/mpeg` for `mp3`, and `application/octet-stream` for any other
/// extension or none.
pub open spec fn content_type_of(path: Seq<u8>) -> Seq<char> {
    let ext = match file_name(path) {
        Some(name) => extension(name),
        None => None,
    };
    if ext == Some(ext_mp4()) {
        "video/mp4"@
    } else if ext == Some(ext_mp3()) {
        "audio/mpeg"@
    } else {
        "application/octet-stream"@
    }
}

/// One past the position of the last `c` in `s[from..to]`, counted from
/// `from`; `from` when there is none.
fn after_last(s: &[u8], from: usize, to: usize, c: u8) -> (r: usize)
    requires
        from <= to <= s@.len(),
    ensures
        from <= r <= to,
        r == from + last_index(s@.subrange(from as int, to as int), c) + 1,
{
    let mut i: usize = to;
    while i > from && s[i - 1] != c
        invariant
            from <= i <= to <= s@.len(),
            last_index(s@.subrange(from as int, i as int), c) == last_index(
                s@.subrange(from as int, to as int),
                c,
            ),
        decreases i,
    {
        assert(s@.subrange(from as int, i as int).drop_last() =~= s@.subrange(
            from as int,
            i - 1,
        ));
        i = i - 1;
    }
    i
}

/// Whether `s[from..to]` holds exactly the bytes of `lit`.
fn bytes_equal(s: &[u8], from: usize, to: usize, lit: &[u8]) -> (r: bool)
    requires
        from <= to <= s@.len(),
    ensures
        r == (s@.subrange(from as int, to as int) == lit@),
{
    if to - from != lit.len() {
        return false;
    }
    let mut i: usize = 0;
    while i < lit.len()
        invariant
            from <= to <= s@.len(),
            to - from == lit@.len(),
            i <= lit@.len(),
            forall|j: int| 0 <= j < i ==> s@[from + j] == lit@[j],
        decreases lit@.len() - i,
    {
        if s[from + i] != lit[i] {
            assert(s@.subrange(from as int, to as int)[i as int] != lit@[i as int]);
            return false;
        }
        i = i + 1;
    }
    assert(s@.subrange(from as int, to as int) =~= lit@);
    true
}

/// Locates the file name of a path: the bounds of its final component.
fn file_name_bounds(path: &[u8]) -> (r: Option<(usize, usize)>)
    ensures
        match r {
            Some((from, to)) => from <= to <= path@.len() && file_name(path@) == Some(
                path@.subrange(from as int, to as int),
            ),
            None => file_name(path@).is_none(),
        },
{
    let dot: [u8; 1] = [DOT];
    let dot_dot: [u8; 2] = [DOT, DOT];
    assert(dot@ =~= current_dir());
    assert(dot_dot@ =~= parent_dir());
    let mut pos: usize = path.len();
    assert(path@.subrange(0, pos as int) =~= path@);
    while pos > 0
        invariant
            pos <= path@.len(),
            dot@ == current_dir(),
            dot_dot@ == parent_dir(),
            file_name(path@) == file_name(path@.subrange(0, pos as int)),
        decreases pos,
    {
        let ghost p = path@.subrange(0, pos as int);
        let k = after_last(path, 0, pos, SLASH);
        assert(p.subrange(k as int, pos as int) =~= path@.subrange(k as int, pos as int));
        if k == pos || bytes_equal(path, k, pos, dot.as_slice()) {
            assert(p.drop_last() =~= path@.subrange(0, pos - 1));
            pos = pos - 1;
        } else if bytes_equal(path, k, pos, dot_dot.as_slice()) {
            return None;
        } else {
            return Some((k, pos));
        }
    }
    None
}

/// The MIME type to serve a file with, chosen by the extension of its name:
/// `video/mp4` for `.mp4`, `audio/mpeg` for `.mp3`, and
/// `application/octet-stream` for any other extension or none.
pub fn get_content_type(file_path: &str) -> (r: &'static str)
    ensures
        r@ == content_type_of(file_path.spec_bytes()),
{
    proof {
        reveal_strlit("video/mp4");
        reveal_strlit("audio/mpeg");
        reveal_strlit("application/octet-stream");
    }
    let path = file_path.as_bytes();
    let mp4: [u8; 3] = [109, 112, 52];
    let mp3: [u8; 3] = [109, 112, 51];
    assert(mp4@ =~= ext_mp4());
    assert(mp3@ =~= ext_mp3());
    if let Some((from, to)) = file_name_bounds(path) {
        let ghost name = path@.subrange(from as int, to as int);
        let k = after_last(path, from, to, DOT);
        if k - from > 1 {
            assert(name.subrange(k - from, name.len() as int) =~= path@.subrange(
                k as int,
                to as int,
            ));
            if bytes_equal(path, k, to, mp4.as_slice()) {
                return "video/mp4";
            } else if bytes_equal(path, k, to, mp3.as_slice()) {
                return "audio/mpeg";
            }
        }
    }
    "application/octet-stream"
}

} // verus!
