use vstd::prelude::*;
use vstd::string::*;

verus! {

broadcast use vstd::string::group_string_axioms;

/// True for the separator that the catalogue uses between path components.
pub open spec fn is_sep(c: char) -> bool {
    c == '\\'
}

/// The positions at which `c` occurs in `s`, in increasing order.
pub open spec fn char_positions(s: Seq<char>, c: char) -> Seq<int>
    decreases s.len(),
{
    if s.len() == 0 {
        Seq::empty()
    } else {
        let rest = char_positions(s.drop_last(), c);
        if s.last() == c {
            rest.push(s.len() - 1)
        } else {
            rest
        }
    }
}

/// The positions of the separators in `s`, in increasing order.
pub open spec fn sep_positions(s: Seq<char>) -> Seq<int> {
    char_positions(s, '\\')
}

/// The positions at which `c` occurs in `s`, as machine integers.
pub fn char_positions_of(s: &str, c: char) -> (r: Vec<usize>)
    ensures
        r@.map_values(|p: usize| p as int) == char_positions(s@, c),
{
    let n = s.unicode_len();
    let mut r: Vec<usize> = Vec::new();
    let mut i: usize = 0;
    for d in it: s.chars()
        invariant
            n == s@.len(),
            it.seq() == s@,
            i == it.index(),
            i <= n,
            r@.map_values(|p: usize| p as int) == char_positions(s@.take(i as int), c),
    {
        assert(s@.take(i + 1).drop_last() =~= s@.take(i as int));
        if d == c {
            r.push(i);
        }
        assert(r@.map_values(|p: usize| p as int) =~= char_positions(s@.take(i + 1), c));
        i = i + 1;
    }
    assert(s@.take(i as int) =~= s@);
    r
}

/// The separator positions of `s`, as machine integers.
pub fn separator_positions(s: &str) -> (r: Vec<usize>)
    ensures
        r@.map_values(|p: usize| p as int) == sep_positions(s@),
{
    char_positions_of(s, '\\')
}

/// Every listed position holds `c`, lies inside `s`, and the positions
/// increase strictly.
pub proof fn lemma_char_positions(s: Seq<char>, c: char)
    ensures
        forall|k: int|
            0 <= k < char_positions(s, c).len() ==> 0 <= #[trigger] char_positions(s, c)[k] < s.len()
                && s[char_positions(s, c)[k]] == c,
        forall|k: int, l: int|
            0 <= k < l < char_positions(s, c).len() ==> #[trigger] char_positions(s, c)[k]
                < #[trigger] char_positions(s, c)[l],
    decreases s.len(),
{
    if s.len() > 0 {
        let t = s.drop_last();
        lemma_char_positions(t, c);
        let rest = char_positions(t, c);
        let p = char_positions(s, c);
        assert forall|k: int| 0 <= k < p.len() implies 0 <= #[trigger] p[k] < s.len() && s[p[k]]
            == c by {
            if k < rest.len() {
                assert(p[k] == rest[k]);
                assert(s[rest[k]] == t[rest[k]]);
            }
        }
        assert forall|k: int, l: int| 0 <= k < l < p.len() implies #[trigger] p[k] < #[trigger] p[l] by {
            if l < rest.len() {
                assert(p[k] == rest[k] && p[l] == rest[l]);
            } else {
                assert(p[k] == rest[k]);
            }
        }
    }
}

/// Every listed separator position lies inside `s`, holds a separator, and
/// the positions increase strictly.
pub proof fn lemma_sep_positions(s: Seq<char>)
    ensures
        forall|k: int|
            0 <= k < sep_positions(s).len() ==> 0 <= #[trigger] sep_positions(s)[k] < s.len()
                && is_sep(s[sep_positions(s)[k]]),
        forall|k: int, l: int|
            0 <= k < l < sep_positions(s).len() ==> #[trigger] sep_positions(s)[k]
                < #[trigger] sep_positions(s)[l],
{
    lemma_char_positions(s, '\\');
}

/// The path of the folder that contains `s`: everything before its last
/// separator.
pub open spec fn parent_path(s: Seq<char>) -> Seq<char> {
    s.subrange(0, sep_positions(s).last())
}

/// The depth that the tree records for a folder path: the number of
/// components before the last one, less one.
pub open spec fn depth_level(s: Seq<char>) -> i32 {
    (sep_positions(s).len() - 1) as i32
}

/// The library root: the first three components of `s`.
pub open spec fn root_path(s: Seq<char>) -> Seq<char> {
    let p = sep_positions(s);
    if p.len() > 2 {
        s.subrange(0, p[2])
    } else {
        s
    }
}

/// The name given to the library root: the second component of `s`.
pub open spec fn root_name(s: Seq<char>) -> Seq<char> {
    let p = sep_positions(s);
    s.subrange(p[0] + 1, p[1])
}

/// The parent folder of `s` and the depth recorded for `s`.
pub fn parent_and_level(s: &str) -> (r: (String, i32))
    requires
        sep_positions(s@).len() >= 1,
    ensures
        r.0@ == parent_path(s@),
        r.1 == depth_level(s@),
{
    let pos = separator_positions(s);
    proof {
        lemma_sep_positions(s@);
        assert(pos@.len() == sep_positions(s@).len());
    }
    let k = pos.len() - 1;
    let last = pos[k];
    proof {
        assert(sep_positions(s@)[k as int] == pos@[k as int] as int);
    }
    let parent = s.substring_char(0, last).to_owned();
    (parent, k as i32)
}

/// The path and the name of the library root named by `s`.
pub fn root_of(s: &str) -> (r: (String, String))
    requires
        sep_positions(s@).len() >= 2,
    ensures
        r.0@ == root_path(s@),
        r.1@ == root_name(s@),
{
    let pos = separator_positions(s);
    let n = s.unicode_len();
    proof {
        lemma_sep_positions(s@);
        assert(pos@.len() == sep_positions(s@).len());
        assert(sep_positions(s@)[0] == pos@[0] as int);
        assert(sep_positions(s@)[1] == pos@[1] as int);
    }
    let end = if pos.len() > 2 {
        proof {
            assert(sep_positions(s@)[2] == pos@[2] as int);
        }
        pos[2]
    } else {
        n
    };
    let path = s.substring_char(0, end).to_owned();
    let name = s.substring_char(pos[0] + 1, pos[1]).to_owned();
    proof {
        if pos.len() <= 2 {
            assert(s@.subrange(0, n as int) =~= s@);
        }
    }
    (path, name)
}

} // verus!
