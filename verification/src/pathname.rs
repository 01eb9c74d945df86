//! Path-name logic: extracting the filename component of a path and splitting
//! a filename into stem and extension.
//!
//! The crate treats a path as a sequence of characters whose components are
//! separated by `/`. The filename is the suffix after the last separator; a
//! path ending in a separator has no filename. A filename splits into a stem
//! and an extension at its last dot, except that a dot in the leading position
//! marks a hidden file, not an extension. The extension keeps its leading dot
//! so that stem and extension always concatenate back to the filename.

use vstd::prelude::*;

verus! {

/// The suffix of `p` after its last `/`; the whole of `p` when no `/` occurs;
/// empty when `p` is empty or ends in `/`.
pub open spec fn file_name_spec(p: Seq<char>) -> Seq<char>
    decreases p.len(),
{
    if p.len() == 0 {
        Seq::empty()
    } else if p.last() == '/' {
        Seq::empty()
    } else {
        file_name_spec(p.drop_last()).push(p.last())
    }
}

/// The extension of filename `n`, leading dot included: the suffix from the
/// last dot of `n`, provided that dot is not the first character (a name that
/// only starts with a dot is a hidden file without an extension). Empty when
/// there is no such dot.
pub open spec fn ext_spec(n: Seq<char>) -> Seq<char>
    decreases n.len(),
{
    if n.len() <= 1 {
        Seq::empty()
    } else if n.last() == '.' {
        seq!['.']
    } else {
        let e = ext_spec(n.drop_last());
        if e.len() == 0 {
            Seq::empty()
        } else {
            e.push(n.last())
        }
    }
}

/// The stem of filename `n`: what remains before the extension.
pub open spec fn stem_spec(n: Seq<char>) -> Seq<char> {
    n.subrange(0, n.len() - ext_spec(n).len())
}

/// The extension is the final stretch of the name.
pub proof fn lemma_ext_is_suffix(n: Seq<char>)
    ensures
        ext_spec(n).len() <= n.len(),
        ext_spec(n) == n.subrange(n.len() - ext_spec(n).len(), n.len() as int),
    decreases n.len(),
{
    if n.len() <= 1 {
        assert(ext_spec(n) =~= n.subrange(n.len() - ext_spec(n).len(), n.len() as int));
    } else if n.last() == '.' {
        assert(ext_spec(n) =~= n.subrange(n.len() - 1, n.len() as int));
    } else {
        let d = n.drop_last();
        lemma_ext_is_suffix(d);
        assert(ext_spec(n) =~= n.subrange(n.len() - ext_spec(n).len(), n.len() as int));
    }
}

/// The extension is a suffix of the name, so stem and extension concatenate
/// back to the whole name.
pub proof fn lemma_stem_ext_concat(n: Seq<char>)
    ensures
        ext_spec(n).len() <= n.len(),
        stem_spec(n) + ext_spec(n) == n,
{
    lemma_ext_is_suffix(n);
    assert(stem_spec(n) + ext_spec(n) =~= n);
}

/// When `p[i]` is the last `/` of `p`, the filename is exactly the suffix
/// after `i`.
proof fn lemma_file_name_after_slash(p: Seq<char>, i: int)
    requires
        0 <= i < p.len(),
        p[i] == '/',
        forall|j: int| i < j < p.len() ==> p[j] != '/',
    ensures
        file_name_spec(p) == p.subrange(i + 1, p.len() as int),
    decreases p.len(),
{
    if i == p.len() - 1 {
        assert(file_name_spec(p) =~= p.subrange(i + 1, p.len() as int));
    } else {
        lemma_file_name_after_slash(p.drop_last(), i);
        assert(p.drop_last().subrange(i + 1, p.len() - 1) =~= p.subrange(i + 1, p.len() - 1));
        assert(file_name_spec(p) =~= p.subrange(i + 1, p.len() as int));
    }
}

/// When `p` holds no `/` at all, the filename is `p` itself.
proof fn lemma_file_name_no_slash(p: Seq<char>)
    requires
        forall|j: int| 0 <= j < p.len() ==> p[j] != '/',
    ensures
        file_name_spec(p) == p,
    decreases p.len(),
{
    if p.len() == 0 {
        assert(file_name_spec(p) =~= p);
    } else {
        lemma_file_name_no_slash(p.drop_last());
        assert(file_name_spec(p) =~= p);
    }
}

/// When `n[i]` is the last `.` of `n` and stands past the first position, the
/// extension is exactly the suffix from `i`.
proof fn lemma_ext_after_dot(n: Seq<char>, i: int)
    requires
        1 <= i < n.len(),
        n[i] == '.',
        forall|j: int| i < j < n.len() ==> n[j] != '.',
    ensures
        ext_spec(n) == n.subrange(i, n.len() as int),
    decreases n.len(),
{
    if i == n.len() - 1 {
        assert(ext_spec(n) =~= n.subrange(i, n.len() as int));
    } else {
        lemma_ext_after_dot(n.drop_last(), i);
        assert(ext_spec(n.drop_last()).len() > 0);
        assert(n.drop_last().subrange(i, n.len() - 1) =~= n.subrange(i, n.len() - 1));
        assert(ext_spec(n) =~= n.subrange(i, n.len() as int));
    }
}

/// When no `.` of `n` stands past the first position, there is no extension.
proof fn lemma_ext_no_dot(n: Seq<char>)
    requires
        forall|j: int| 1 <= j < n.len() ==> n[j] != '.',
    ensures
        ext_spec(n) == Seq::<char>::empty(),
    decreases n.len(),
{
    if n.len() <= 1 {
    } else {
        lemma_ext_no_dot(n.drop_last());
    }
}

/// Index of the last occurrence of `c` in `s`, if any.
pub fn last_index_of(s: &str, c: char) -> (r: Option<usize>)
    ensures
        match r {
            Some(i) => {
                &&& i < s@.len()
                &&& s@[i as int] == c
                &&& forall|j: int| i < j < s@.len() ==> s@[j] != c
            },
            None => forall|j: int| 0 <= j < s@.len() ==> s@[j] != c,
        },
{
    let n = s.unicode_len();
    let mut i = n;
    while i > 0
        invariant
            i <= n,
            n == s@.len(),
            forall|j: int| i <= j < n ==> s@[j] != c,
        decreases i,
    {
        i = i - 1;
        if s.get_char(i) == c {
            return Some(i);
        }
    }
    None
}

/// The filename component of `path`: the part after the last `/`, or the whole
/// path when it holds no `/`. `None` when that part is empty, in which case
/// the path names no file and cannot be moved into the holding area.
pub fn file_name_of(path: &str) -> (r: Option<String>)
    ensures
        match r {
            Some(name) => name@ == file_name_spec(path@) && name@.len() > 0,
            None => file_name_spec(path@).len() == 0,
        },
{
    let n = s_len(path);
    let start = match last_index_of(path, '/') {
        Some(i) => {
            proof {
                lemma_file_name_after_slash(path@, i as int);
            }
            i + 1
        },
        None => {
            proof {
                lemma_file_name_no_slash(path@);
            }
            0
        },
    };
    if start == n {
        None
    } else {
        let name = path.substring_char(start, n);
        assert(name@ =~= file_name_spec(path@));
        Some(name.to_owned())
    }
}

/// Split filename `name` into stem and extension; the extension keeps its
/// leading dot and may be empty, and the two concatenate back to the name.
pub fn split_stem_ext(name: &str) -> (r: (String, String))
    ensures
        r.0@ == stem_spec(name@),
        r.1@ == ext_spec(name@),
        r.0@ + r.1@ == name@,
{
    proof {
        lemma_stem_ext_concat(name@);
    }
    let n = s_len(name);
    match last_index_of(name, '.') {
        Some(i) if i > 0 => {
            proof {
                lemma_ext_after_dot(name@, i as int);
            }
            let stem = name.substring_char(0, i);
            let ext = name.substring_char(i, n);
            assert(stem@ =~= stem_spec(name@));
            (stem.to_owned(), ext.to_owned())
        },
        _ => {
            proof {
                lemma_ext_no_dot(name@);
                assert(name@.subrange(0, name@.len() as int) =~= name@);
            }
            (name.to_owned(), String::new())
        },
    }
}

/// Character length of `s`; a readable name for the unicode length.
fn s_len(s: &str) -> (n: usize)
    ensures
        n == s@.len(),
{
    s.unicode_len()
}

} // verus!
