//! Paths as text, with the meaning that `std::path` gives them on Unix:
//! joining one path onto another, the last named component, its extension.
use vstd::prelude::*;
use vstd::string::*;
use crate::text::{
    chars_of, char_views, chars_equal, lacks_char, lemma_split_append, lemma_split_last_empty,
    lemma_split_on_len, split_chars, split_on, string_of,
};

verus! {

/// `p` pushed onto `base`, as `PathBuf::push` does it: an absolute `p`
/// replaces `base`; otherwise a separator is put between them unless `base`
/// is empty or already ends in one.
pub open spec fn push_path(base: Seq<char>, p: Seq<char>) -> Seq<char> {
    if p.len() > 0 && p[0] == '/' {
        p
    } else if base.len() > 0 && base.last() != '/' {
        base + seq!['/'] + p
    } else {
        base + p
    }
}

/// A component that names a file or directory: neither empty nor `"."`.
pub open spec fn is_named_segment(seg: Seq<char>) -> bool {
    seg.len() > 0 && seg != seq!['.']
}

/// The last named component among `segs`.
pub open spec fn last_named(segs: Seq<Seq<char>>) -> Option<Seq<char>>
    decreases segs.len(),
{
    if segs.len() == 0 {
        None
    } else if is_named_segment(segs.last()) {
        Some(segs.last())
    } else {
        last_named(segs.drop_last())
    }
}

/// The final component of `p` if it names a file or directory, as
/// `Path::file_name` gives it: none for an empty path, for the root, or for a
/// path that ends in `".."`; separators and `"."` components at the end are
/// passed over.
pub open spec fn file_name_of(p: Seq<char>) -> Option<Seq<char>> {
    match last_named(split_on(p, '/')) {
        Some(seg) => if seg == seq!['.', '.'] {
            None
        } else {
            Some(seg)
        },
        None => None,
    }
}

/// The index of the last `c` in `s`, or -1.
pub open spec fn last_index_of(s: Seq<char>, c: char) -> int
    decreases s.len(),
{
    if s.len() == 0 {
        -1
    } else if s.last() == c {
        s.len() - 1
    } else {
        last_index_of(s.drop_last(), c)
    }
}

/// The extension of the file name of `p`, as `Path::extension` gives it: the
/// text after the last `'.'` of the file name, unless that dot is its first
/// character or it has none.
pub open spec fn extension_of(p: Seq<char>) -> Option<Seq<char>> {
    match file_name_of(p) {
        Some(name) => {
            let i = last_index_of(name, '.');
            if i > 0 {
                Some(name.skip(i + 1))
            } else {
                None
            }
        },
        None => None,
    }
}

/// `p` pushed onto `base`, as `PathBuf::push` does it.
pub fn join_path(base: &str, p: &str) -> (out: String)
    ensures
        out@ == push_path(base@, p@),
{
    let b = chars_of(base);
    let q = chars_of(p);
    let mut out: Vec<char> = Vec::new();
    if q.len() > 0 && q[0] == '/' {
        return string_of(q.as_slice());
    }
    let mut i: usize = 0;
    while i < b.len()
        invariant
            i <= b@.len(),
            out@ == b@.take(i as int),
        decreases b@.len() - i,
    {
        out.push(b[i]);
        i = i + 1;
    }
    assert(b@.take(b@.len() as int) =~= b@);
    if b.len() > 0 && b[b.len() - 1] != '/' {
        out.push('/');
    }
    let ghost mid = out@;
    let mut j: usize = 0;
    while j < q.len()
        invariant
            j <= q@.len(),
            out@ == mid + q@.take(j as int),
        decreases q@.len() - j,
    {
        out.push(q[j]);
        j = j + 1;
    }
    assert(q@.take(q@.len() as int) =~= q@);
    string_of(out.as_slice())
}

/// Whether a component names a file or directory.
fn named_segment(seg: &[char]) -> (b: bool)
    ensures
        b == is_named_segment(seg@),
{
    let dot: [char; 1] = ['.'];
    assert(dot@ =~= seq!['.']);
    seg.len() > 0 && !chars_equal(seg, &dot)
}

/// The last component of `p`, as `Path::file_name` gives it.
pub fn file_name(p: &str) -> (name: Option<String>)
    ensures
        match name {
            Some(n) => file_name_of(p@) == Some(n@),
            None => file_name_of(p@) is None,
        },
{
    let v = chars_of(p);
    let segs = split_chars(v.as_slice(), '/');
    let ghost views = char_views(segs@);
    let mut found: Option<usize> = None;
    let mut k: usize = 0;
    while k < segs.len()
        invariant
            k <= segs@.len(),
            views == char_views(segs@),
            views == split_on(v@, '/'),
            match found {
                Some(i) => i < k && last_named(views.take(k as int)) == Some(views[i as int]),
                None => last_named(views.take(k as int)) is None,
            },
        decreases segs@.len() - k,
    {
        assert(views.take(k + 1).drop_last() =~= views.take(k as int));
        assert(views.take(k + 1).last() == segs@[k as int]@);
        if named_segment(segs[k].as_slice()) {
            found = Some(k);
        }
        k = k + 1;
    }
    assert(views.take(segs@.len() as int) =~= views);
    match found {
        Some(i) => {
            let dots: [char; 2] = ['.', '.'];
            assert(dots@ =~= seq!['.', '.']);
            if chars_equal(segs[i].as_slice(), &dots) {
                None
            } else {
                Some(string_of(segs[i].as_slice()))
            }
        },
        None => None,
    }
}

/// The extension of the file name of `p`, as `Path::extension` gives it.
pub fn extension(p: &str) -> (ext: Option<String>)
    ensures
        match ext {
            Some(e) => extension_of(p@) == Some(e@),
            None => extension_of(p@) is None,
        },
{
    match file_name(p) {
        Some(name) => {
            let n = chars_of(name.as_str());
            let mut i: usize = n.len();
            assert(n@.take(n@.len() as int) =~= n@);
            while i > 0 && n[i - 1] != '.'
                invariant
                    i <= n@.len(),
                    last_index_of(n@, '.') == last_index_of(n@.take(i as int), '.'),
                decreases i,
            {
                assert(n@.take(i as int).drop_last() =~= n@.take(i - 1));
                i = i - 1;
            }
            if i <= 1 {
                proof {
                    if i == 1 {
                        assert(n@.take(1).last() == '.');
                    } else {
                        assert(n@.take(0).len() == 0);
                    }
                }
                None
            } else {
                let mut out: Vec<char> = Vec::new();
                let mut j: usize = i;
                while j < n.len()
                    invariant
                        i <= j <= n@.len(),
                        out@ == n@.subrange(i as int, j as int),
                    decreases n@.len() - j,
                {
                    out.push(n[j]);
                    j = j + 1;
                }
                assert(n@.take(i as int).last() == '.');
                assert(out@ =~= n@.skip(i as int));
                Some(string_of(out.as_slice()))
            }
        },
        None => None,
    }
}


/// Pushing a plain file name onto a path and asking for the file name of
/// the result gives the name back (`PathBuf::push` then `Path::file_name`).
pub proof fn law_file_name_of_pushed(base: Seq<char>, name: Seq<char>)
    requires
        lacks_char(name, '/'),
        is_named_segment(name),
        name != seq!['.', '.'],
    ensures
        file_name_of(push_path(base, name)) == Some(name),
{
    let prefix = if base.len() > 0 && base.last() != '/' {
        base + seq!['/']
    } else {
        base
    };
    if name.len() > 0 {
        assert(name[0] != '/');
    }
    assert(push_path(base, name) =~= prefix + name);
    lemma_split_last_empty(prefix, '/');
    lemma_split_append(prefix, name, '/');
    lemma_split_on_len(prefix, '/');
    let sp = split_on(prefix + name, '/');
    assert(sp.last() =~= name);
}

} // verus!
