//! Final components of `/`-separated paths.
use vstd::prelude::*;

verus! {

/// The characters after the last `/` of `p` (all of `p` when it has none).
pub open spec fn last_component(p: Seq<char>) -> Seq<char>
    decreases p.len(),
{
    if p.len() == 0 || p.last() == '/' {
        seq![]
    } else {
        last_component(p.drop_last()).push(p.last())
    }
}

/// Index of the first character of the last component.
pub open spec fn last_component_start(p: Seq<char>) -> int
    decreases p.len(),
{
    if p.len() == 0 || p.last() == '/' {
        p.len() as int
    } else {
        last_component_start(p.drop_last())
    }
}

proof fn lemma_last_component_start(p: Seq<char>)
    ensures
        0 <= last_component_start(p) <= p.len(),
        last_component(p) == p.subrange(last_component_start(p), p.len() as int),
    decreases p.len(),
{
    if p.len() == 0 || p.last() == '/' {
        assert(p.subrange(p.len() as int, p.len() as int) =~= seq![]);
    } else {
        lemma_last_component_start(p.drop_last());
        assert(last_component(p) =~= p.subrange(last_component_start(p), p.len() as int));
    }
}

/// The final component of `path`: the text after its last `/`. `None` when
/// that text is empty, as for an empty path, `/`, or a path that ends in a
/// separator.
pub fn final_component(path: &str) -> (r: Option<String>)
    ensures
        match r {
            Some(name) => name@ == last_component(path@) && name@.len() > 0,
            None => last_component(path@).len() == 0,
        },
{
    let n = path.unicode_len();
    let mut start: usize = n;
    assert(path@.subrange(0, n as int) =~= path@);
    while start > 0 && path.get_char(start - 1) != '/'
        invariant
            start <= n,
            n == path@.len(),
            last_component_start(path@) == last_component_start(path@.subrange(0, start as int)),
        decreases start,
    {
        assert(path@.subrange(0, start as int).drop_last() =~= path@.subrange(0, start - 1));
        start = start - 1;
    }
    assert(last_component_start(path@.subrange(0, start as int)) == start) by {
        if start > 0 {
            assert(path@.subrange(0, start as int).last() == '/');
        }
    }
    proof {
        lemma_last_component_start(path@);
    }
    if start == n {
        None
    } else {
        let name = path.substring_char(start, n).to_owned();
        Some(name)
    }
}

/// Whether `p` ends in a `.` component: `.` alone, or `/.` at its end.
pub open spec fn ends_in_cur_dir(p: Seq<char>) -> bool {
    p.len() > 0 && p.last() == '.' && (p.len() == 1 || p[p.len() - 2] == '/')
}

/// The file name of `p`, read as a Unix path: trailing separators and `.`
/// components are skipped; `None` when nothing is left (an empty path, the
/// root, `.`) or when the last component is `..`.
pub open spec fn file_name_of(p: Seq<char>) -> Option<Seq<char>>
    decreases p.len(),
{
    if p.len() == 0 {
        None
    } else if p.last() == '/' || ends_in_cur_dir(p) {
        file_name_of(p.drop_last())
    } else if last_component(p) == seq!['.', '.'] {
        None
    } else {
        Some(last_component(p))
    }
}

/// The file name of `path`, as `file_name_of` states it.
pub fn file_name(path: &str) -> (r: Option<String>)
    ensures
        match file_name_of(path@) {
            Some(name) => r is Some && r->0@ == name,
            None => r is None,
        },
{
    let n = path.unicode_len();
    let mut end: usize = n;
    let mut done = false;
    assert(path@.subrange(0, n as int) =~= path@);
    while !done && end > 0
        invariant
            end <= n,
            n == path@.len(),
            file_name_of(path@) == file_name_of(path@.subrange(0, end as int)),
            done ==> end > 0 && path@[end - 1] != '/' && !ends_in_cur_dir(path@.subrange(0, end as int)),
        decreases end + if done { 0int } else { 1int },
    {
        let ghost q = path@.subrange(0, end as int);
        let c = path.get_char(end - 1);
        let cur_dir = c == '.' && (end == 1 || path.get_char(end - 2) == '/');
        assert(cur_dir == ends_in_cur_dir(q));
        if c == '/' || cur_dir {
            assert(q.drop_last() =~= path@.subrange(0, end - 1));
            end = end - 1;
        } else {
            done = true;
        }
    }
    if end == 0 {
        return None;
    }
    let prefix = path.substring_char(0, end);
    let ghost q = path@.subrange(0, end as int);
    assert(prefix@ == q);
    assert(last_component(q).len() > 0);
    match final_component(prefix) {
        None => None,
        Some(name) => {
            if name.unicode_len() == 2 && name.get_char(0) == '.' && name.get_char(1) == '.' {
                assert(name@ =~= seq!['.', '.']);
                None
            } else {
                assert(name@ != seq!['.', '.']);
                Some(name)
            }
        },
    }
}

} // verus!
