//! Path strings as character sequences: joining with a separator and
//! extracting the final component of a path.

use vstd::prelude::*;

verus! {

/// `dir` and `name` joined with a single separator.
pub open spec fn spec_join(dir: Seq<char>, name: Seq<char>) -> Seq<char> {
    dir + seq!['/'] + name
}

/// Joins a directory path and an entry name with a separator.
pub fn join_path(dir: &str, name: &str) -> (r: String)
    ensures
        r@ == spec_join(dir@, name@),
{
    let mut s = String::from_str(dir);
    s.append("/");
    s.append(name);
    proof {
        reveal_strlit("/");
        assert(s@ =~= spec_join(dir@, name@));
    }
    s
}

/// `s` with every trailing separator removed.
pub open spec fn strip_trailing_slashes(s: Seq<char>) -> Seq<char>
    decreases s.len(),
{
    if s.len() > 0 && s.last() == '/' {
        strip_trailing_slashes(s.drop_last())
    } else {
        s
    }
}

/// The suffix of `t` after its last separator (all of `t` when it has none).
pub open spec fn after_last_slash(t: Seq<char>) -> Seq<char>
    decreases t.len(),
{
    if t.len() == 0 {
        t
    } else if t.last() == '/' {
        Seq::empty()
    } else {
        after_last_slash(t.drop_last()).push(t.last())
    }
}

/// The extractable name of a path: its last component once trailing
/// separators are dropped. A path with no component left, or whose last
/// component is `.` or `..`, has no extractable name.
pub open spec fn spec_file_name(s: Seq<char>) -> Option<Seq<char>> {
    let t = strip_trailing_slashes(s);
    if t.len() == 0 {
        None
    } else {
        let nm = after_last_slash(t);
        if nm == seq!['.'] || nm == seq!['.', '.'] {
            None
        } else {
            Some(nm)
        }
    }
}

proof fn lemma_after_last_slash_subrange(t: Seq<char>, b: int)
    requires
        0 <= b <= t.len(),
        forall|j: int| b <= j < t.len() ==> t[j] != '/',
        b == 0 || t[b - 1] == '/',
    ensures
        after_last_slash(t) == t.subrange(b, t.len() as int),
    decreases t.len(),
{
    if t.len() == 0 {
        assert(t.subrange(0, 0) =~= t);
    } else if b == t.len() {
        assert(after_last_slash(t) =~= t.subrange(b, t.len() as int));
    } else {
        lemma_after_last_slash_subrange(t.drop_last(), b);
        assert(after_last_slash(t) =~= t.subrange(b, t.len() as int));
    }
}

/// Extracts the final path component, the executable side of
/// `spec_file_name`.
pub fn file_name_of(path: &str) -> (r: Option<String>)
    ensures
        match r {
            Some(name) => spec_file_name(path@) == Some(name@),
            None => spec_file_name(path@) is None,
        },
{
    let n = path.unicode_len();
    proof {
        assert(path@.subrange(0, n as int) =~= path@);
    }
    let mut e = n;
    while e > 0 && path.get_char(e - 1) == '/'
        invariant
            e <= n,
            n == path@.len(),
            strip_trailing_slashes(path@) == strip_trailing_slashes(
                path@.subrange(0, e as int),
            ),
        decreases e,
    {
        proof {
            assert(path@.subrange(0, e as int).drop_last() =~= path@.subrange(0, e - 1));
        }
        e -= 1;
    }
    proof {
        assert(strip_trailing_slashes(path@.subrange(0, e as int)) == path@.subrange(
            0,
            e as int,
        ));
    }
    if e == 0 {
        proof {
            assert(strip_trailing_slashes(path@) =~= Seq::<char>::empty());
        }
        return None;
    }
    let mut b = e;
    while b > 0 && path.get_char(b - 1) != '/'
        invariant
            b <= e,
            e <= n,
            n == path@.len(),
            forall|t: int| b <= t < e ==> path@[t] != '/',
        decreases b,
    {
        b -= 1;
    }
    let ghost t = path@.subrange(0, e as int);
    proof {
        assert(forall|j: int| b <= j < t.len() ==> t[j] != '/');
        lemma_after_last_slash_subrange(t, b as int);
        assert(t.subrange(b as int, t.len() as int) =~= path@.subrange(b as int, e as int));
    }
    let nm = path.substring_char(b, e);
    let nm_len = e - b;
    if nm_len == 1 && nm.get_char(0) == '.' {
        proof {
            assert(nm@ =~= seq!['.']);
        }
        None
    } else if nm_len == 2 && nm.get_char(0) == '.' && nm.get_char(1) == '.' {
        proof {
            assert(nm@ =~= seq!['.', '.']);
        }
        None
    } else {
        proof {
            assert(nm@ != seq!['.'] && nm@ != seq!['.', '.']) by {
                if nm_len == 1 {
                    assert(nm@[0] != '.');
                } else if nm_len == 2 {
                    assert(nm@[0] != '.' || nm@[1] != '.');
                }
            }
        }
        Some(String::from_str(nm))
    }
}

} // verus!
