//! Splitting a slash-separated path into its file name and extension.
use vstd::prelude::*;

verus! {

/// Index of the last occurrence of `c` in `s`, or -1 when there is none.
pub open spec fn last_index_of(s: Seq<char>, c: char) -> int
    decreases s.len(),
{
    if s.len() == 0 {
        -1
    } else if s.last() == c {
        s.len() - 1
    } else {
        last_index_of(s.drop_last(), c)
    }
}

/// The length of `s` without its trailing `/` characters.
pub open spec fn trimmed_end(s: Seq<char>) -> int
    decreases s.len(),
{
    if s.len() == 0 {
        0
    } else if s.last() == '/' {
        trimmed_end(s.drop_last())
    } else {
        s.len() as int
    }
}

/// The last component of a path: what follows the last `/` once trailing
/// slashes are dropped.
pub open spec fn last_component(path: Seq<char>) -> Seq<char> {
    let t = path.subrange(0, trimmed_end(path));
    t.subrange(last_index_of(t, '/') + 1, t.len() as int)
}

/// The file name of a path: its last component, or nothing when that is
/// `..` or the path has no component.
pub open spec fn file_name_spec(path: Seq<char>) -> Seq<char> {
    if last_component(path) == seq!['.', '.'] {
        Seq::empty()
    } else {
        last_component(path)
    }
}

/// The extension of a file name: what follows its last `.`, unless that dot
/// is the first character (a hidden name such as `.profile` has none).
pub open spec fn extension_spec(name: Seq<char>) -> Option<Seq<char>> {
    let d = last_index_of(name, '.');
    if d > 0 {
        Some(name.subrange(d + 1, name.len() as int))
    } else {
        None
    }
}

/// The extension of the final component of a path.
pub open spec fn path_extension_spec(path: Seq<char>) -> Option<Seq<char>> {
    extension_spec(file_name_spec(path))
}

pub proof fn lemma_last_index_bounds(s: Seq<char>, c: char)
    ensures
        -1 <= last_index_of(s, c) < s.len(),
        last_index_of(s, c) >= 0 ==> s[last_index_of(s, c)] == c,
        forall|k: int| last_index_of(s, c) < k < s.len() ==> s[k] != c,
    decreases s.len(),
{
    if s.len() > 0 && s.last() != c {
        lemma_last_index_bounds(s.drop_last(), c);
        assert forall|k: int| last_index_of(s, c) < k < s.len() implies s[k] != c by {
            if k < s.len() - 1 {
                assert(s[k] == s.drop_last()[k]);
            }
        }
    }
}

/// Position of the last `c` in `s`, scanning from the end.
pub fn find_last(s: &str, c: char) -> (r: Option<usize>)
    ensures
        match r {
            Some(i) => i as int == last_index_of(s@, c),
            None => last_index_of(s@, c) == -1,
        },
{
    let n = s.unicode_len();
    let mut i: usize = n;
    assert(s@.subrange(0, n as int) =~= s@);
    while i > 0
        invariant
            i <= n == s@.len(),
            last_index_of(s@, c) == last_index_of(s@.subrange(0, i as int), c),
        decreases i,
    {
        let ch = s.get_char(i - 1);
        proof {
            let p = s@.subrange(0, i as int);
            assert(p.drop_last() =~= s@.subrange(0, i - 1));
        }
        if ch == c {
            return Some(i - 1);
        }
        i = i - 1;
    }
    proof {
        assert(s@.subrange(0, 0).len() == 0);
    }
    None
}

/// The file name of `path`: its last component ignoring trailing slashes,
/// or the empty string for `..` or a path of slashes only.
pub fn file_name(path: &str) -> (r: String)
    ensures
        r@ == file_name_spec(path@),
{
    let n = path.unicode_len();
    let mut e: usize = n;
    assert(path@.take(n as int) =~= path@);
    while e > 0 && path.get_char(e - 1) == '/'
        invariant
            e <= n == path@.len(),
            trimmed_end(path@) == trimmed_end(path@.take(e as int)),
        decreases e,
    {
        assert(path@.take(e as int).drop_last() =~= path@.take(e - 1));
        e = e - 1;
    }
    proof {
        if e > 0 {
            assert(path@.take(e as int).last() == path@[e - 1]);
        }
        assert(path@.take(e as int) =~= path@.subrange(0, e as int));
    }
    let t = path.substring_char(0, e);
    proof {
        lemma_last_index_bounds(t@, '/');
    }
    let start: usize = match find_last(t, '/') {
        Some(i) => i + 1,
        None => 0,
    };
    let comp = t.substring_char(start, e);
    if comp.unicode_len() == 2 && comp.get_char(0) == '.' && comp.get_char(1) == '.' {
        assert(comp@ =~= seq!['.', '.']);
        String::new()
    } else {
        proof {
            if comp@ == seq!['.', '.'] {
                assert(comp@[0] == '.' && comp@[1] == '.');
            }
        }
        comp.to_owned()
    }
}

/// The extension of the final component of `path`, if it has one.
pub fn extension(path: &str) -> (r: Option<String>)
    ensures
        match r {
            Some(e) => path_extension_spec(path@) == Some(e@),
            None => path_extension_spec(path@).is_none(),
        },
{
    let name = file_name(path);
    let n = name.as_str().unicode_len();
    proof {
        lemma_last_index_bounds(name@, '.');
    }
    match find_last(name.as_str(), '.') {
        Some(d) => {
            if d > 0 {
                Some(name.as_str().substring_char(d + 1, n).to_owned())
            } else {
                None
            }
        },
        None => None,
    }
}

} // verus!
