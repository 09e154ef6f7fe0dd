//! String-level path reasoning: prefix tests, component-wise prefix checks,
//! joining and parent-directory computation, modelled over `Seq<char>`.
use vstd::prelude::*;
use vstd::string::StrSliceExecFns;
use vstd::string::StringExecFns;

verus! {

/// `pre` is a leading substring of `s`.
pub open spec fn starts_with(s: Seq<char>, pre: Seq<char>) -> bool {
    pre.len() <= s.len() && s.subrange(0, pre.len() as int) == pre
}

/// `pre` is a path-component prefix of `p`, as `Path::starts_with` sees it
/// for a path without repeated separators: either the whole of `p`, or
/// followed in `p` by a separator. A prefix that itself ends in a separator
/// (the root `/`) already carries the boundary.
pub open spec fn path_has_prefix(p: Seq<char>, pre: Seq<char>) -> bool {
    if pre.len() > 0 && pre[pre.len() - 1] == '/' {
        starts_with(p, pre)
    } else {
        p == pre || (p.len() > pre.len() && starts_with(p, pre) && p[pre.len() as int] == '/')
    }
}

/// What remains of `p` after its component prefix `pre` and the separator.
pub open spec fn strip_path_prefix(p: Seq<char>, pre: Seq<char>) -> Seq<char> {
    if pre.len() > 0 && pre[pre.len() - 1] == '/' {
        p.subrange(pre.len() as int, p.len() as int)
    } else if p == pre {
        Seq::empty()
    } else {
        p.subrange(pre.len() as int + 1, p.len() as int)
    }
}

/// `s` with every run of separators reduced to a single one: a character is
/// dropped exactly when it is a `/` directly followed by another.
pub open spec fn collapse_slashes(s: Seq<char>) -> Seq<char>
    decreases s.len(),
{
    if s.len() == 0 {
        Seq::empty()
    } else if s.len() >= 2 && s[0] == '/' && s[1] == '/' {
        collapse_slashes(s.drop_first())
    } else {
        seq![s[0]] + collapse_slashes(s.drop_first())
    }
}

/// A non-empty string keeps its first character through collapsing.
pub proof fn lemma_collapse_first(s: Seq<char>)
    requires
        s.len() > 0,
    ensures
        collapse_slashes(s).len() > 0,
        collapse_slashes(s)[0] == s[0],
    decreases s.len(),
{
    if s.len() >= 2 && s[0] == '/' && s[1] == '/' {
        lemma_collapse_first(s.drop_first());
    }
}

/// Join `b` onto `a` as `PathBuf::join` does: an absolute `b` replaces `a`.
pub open spec fn join_path(a: Seq<char>, b: Seq<char>) -> Seq<char> {
    if b.len() > 0 && b[0] == '/' {
        b
    } else if a.len() == 0 {
        b
    } else if a[a.len() - 1] == '/' {
        a + b
    } else {
        a + seq!['/'] + b
    }
}

/// Index of the last `/` in `s`, or `-1` if there is none.
pub open spec fn last_slash_index(s: Seq<char>) -> int
    decreases s.len(),
{
    if s.len() == 0 {
        -1
    } else if s[s.len() - 1] == '/' {
        s.len() - 1
    } else {
        last_slash_index(s.drop_last())
    }
}

/// The containing directory of `f`, as `Path::parent` gives it for a path
/// without a trailing separator: `None` for the empty path and for the root.
pub open spec fn dirname(f: Seq<char>) -> Option<Seq<char>> {
    if f.len() == 0 {
        None
    } else {
        let i = last_slash_index(f);
        if i < 0 {
            Some(Seq::empty())
        } else if i == 0 {
            if f.len() == 1 {
                None
            } else {
                Some(seq!['/'])
            }
        } else {
            Some(f.subrange(0, i))
        }
    }
}

pub proof fn lemma_last_slash_bounds(s: Seq<char>)
    ensures
        -1 <= last_slash_index(s) < s.len(),
    decreases s.len(),
{
    if s.len() > 0 && s[s.len() - 1] != '/' {
        lemma_last_slash_bounds(s.drop_last());
    }
}

/// A parent directory is strictly shorter than its path.
pub proof fn lemma_dirname_shorter(f: Seq<char>)
    ensures
        dirname(f) matches Some(d) ==> d.len() < f.len(),
{
    lemma_last_slash_bounds(f);
}

/// The path of `to` relative to the directory `dir`: what remains of `to`
/// under `dir`, behind one `../` for every step from `dir` up to an ancestor
/// of `to`. When `dir` runs out of parents without reaching an ancestor,
/// `to` is returned as it stands.
pub open spec fn relative_to_dir(dir: Seq<char>, to: Seq<char>) -> Seq<char>
    decreases dir.len(),
    via relative_to_dir_decreases
{
    if path_has_prefix(to, dir) {
        strip_path_prefix(to, dir)
    } else {
        match dirname(dir) {
            Option::None => to,
            Option::Some(parent) => "../"@ + relative_to_dir(parent, to),
        }
    }
}

#[via_fn]
proof fn relative_to_dir_decreases(dir: Seq<char>, to: Seq<char>) {
    lemma_dirname_shorter(dir);
}

pub fn relative_to_dir_exec(dir: &str, to: &str) -> (r: String)
    ensures
        r@ == relative_to_dir(dir@, to@),
{
    let mut ups = String::new();
    let mut cur = String::from_str(dir);
    loop
        invariant
            relative_to_dir(dir@, to@) == ups@ + relative_to_dir(cur@, to@),
        decreases cur@.len(),
    {
        if path_prefix_exec(to, cur.as_str()) {
            let rem = strip_path_prefix_exec(to, cur.as_str());
            ups.append(rem.as_str());
            return ups;
        }
        match dirname_exec(cur.as_str()) {
            Option::None => {
                ups.append(to);
                return ups;
            },
            Option::Some(parent) => {
                proof {
                    lemma_dirname_shorter(cur@);
                    assert(relative_to_dir(cur@, to@) == "../"@ + relative_to_dir(parent@, to@));
                    assert(ups@ + "../"@ + relative_to_dir(parent@, to@) =~= ups@ + ("../"@
                        + relative_to_dir(parent@, to@)));
                }
                ups.append("../");
                cur = parent;
            },
        }
    }
}

/// `s` with trailing separators removed, keeping at least one character.
pub open spec fn strip_trailing_slashes(s: Seq<char>) -> Seq<char>
    decreases s.len(),
{
    if s.len() > 1 && s[s.len() - 1] == '/' {
        strip_trailing_slashes(s.drop_last())
    } else {
        s
    }
}

pub fn str_starts_with(s: &str, pre: &str) -> (r: bool)
    ensures
        r == starts_with(s@, pre@),
{
    let n = pre.unicode_len();
    if n > s.unicode_len() {
        return false;
    }
    let mut i: usize = 0;
    while i < n
        invariant
            i <= n,
            n == pre@.len(),
            n <= s@.len(),
            forall|j: int| 0 <= j < i ==> s@[j] == pre@[j],
        decreases n - i,
    {
        if s.get_char(i) != pre.get_char(i) {
            proof {
                assert(!starts_with(s@, pre@)) by {
                    if s@.subrange(0, pre@.len() as int) == pre@ {
                        assert(s@.subrange(0, pre@.len() as int)[i as int] == pre@[i as int]);
                    }
                }
            }
            return false;
        }
        i += 1;
    }
    proof {
        assert(s@.subrange(0, pre@.len() as int) =~= pre@);
    }
    true
}

pub fn path_prefix_exec(p: &str, pre: &str) -> (r: bool)
    ensures
        r == path_has_prefix(p@, pre@),
{
    let pn = p.unicode_len();
    let pren = pre.unicode_len();
    if pren > 0 && pre.get_char(pren - 1) == '/' {
        str_starts_with(p, pre)
    } else if pn == pren {
        let r = str_starts_with(p, pre);
        proof {
            if r {
                assert(p@ =~= p@.subrange(0, pre@.len() as int));
            }
            if p@ == pre@ {
                assert(p@.subrange(0, pre@.len() as int) =~= pre@);
            }
        }
        r
    } else if pn > pren {
        if str_starts_with(p, pre) {
            p.get_char(pren) == '/'
        } else {
            false
        }
    } else {
        false
    }
}

pub fn strip_path_prefix_exec(p: &str, pre: &str) -> (r: String)
    requires
        path_has_prefix(p@, pre@),
    ensures
        r@ == strip_path_prefix(p@, pre@),
{
    let pn = p.unicode_len();
    let pren = pre.unicode_len();
    if pren > 0 && pre.get_char(pren - 1) == '/' {
        String::from_str(p.substring_char(pren, pn))
    } else if pn == pren {
        String::new()
    } else {
        String::from_str(p.substring_char(pren + 1, pn))
    }
}

pub fn collapse_slashes_exec(s: &str) -> (r: String)
    ensures
        r@ == collapse_slashes(s@),
{
    let n = s.unicode_len();
    let mut r = String::new();
    let mut i: usize = 0;
    proof {
        assert(s@.subrange(0, n as int) =~= s@);
    }
    while i < n
        invariant
            i <= n,
            n == s@.len(),
            r@ + collapse_slashes(s@.subrange(i as int, n as int)) == collapse_slashes(s@),
        decreases n - i,
    {
        let ghost suffix = s@.subrange(i as int, n as int);
        proof {
            assert(suffix.drop_first() =~= s@.subrange(i as int + 1, n as int));
        }
        let c = s.get_char(i);
        let skip = c == '/' && i + 1 < n && s.get_char(i + 1) == '/';
        if !skip {
            let piece = s.substring_char(i, i + 1);
            r.append(piece);
            proof {
                assert(piece@ =~= seq![s@[i as int]]);
                assert(collapse_slashes(suffix) == seq![s@[i as int]] + collapse_slashes(
                    suffix.drop_first(),
                ));
                assert(r@ + collapse_slashes(s@.subrange(i as int + 1, n as int))
                    =~= collapse_slashes(s@));
            }
        } else {
            proof {
                assert(collapse_slashes(suffix) == collapse_slashes(suffix.drop_first()));
            }
        }
        i += 1;
    }
    proof {
        assert(s@.subrange(n as int, n as int) =~= Seq::<char>::empty());
        assert(r@ + Seq::<char>::empty() =~= r@);
    }
    r
}

pub fn join_path_exec(a: &str, b: &str) -> (r: String)
    ensures
        r@ == join_path(a@, b@),
{
    let an = a.unicode_len();
    let bn = b.unicode_len();
    if bn > 0 && b.get_char(0) == '/' {
        String::from_str(b)
    } else if an == 0 {
        String::from_str(b)
    } else if a.get_char(an - 1) == '/' {
        String::from_str(a).concat(b)
    } else {
        let mut s = String::from_str(a);
        s.append("/");
        s.append(b);
        proof {
            reveal_strlit("/");
            assert(s@ =~= a@ + seq!['/'] + b@);
        }
        s
    }
}

pub fn dirname_exec(f: &str) -> (r: Option<String>)
    ensures
        match r {
            Option::None => dirname(f@) is None,
            Option::Some(d) => dirname(f@) == Some(d@),
        },
{
    let n = f.unicode_len();
    let mut i: usize = n;
    proof {
        assert(f@.subrange(0, n as int) =~= f@);
    }
    while i > 0
        invariant
            i <= n,
            n == f@.len(),
            last_slash_index(f@) == last_slash_index(f@.subrange(0, i as int)),
        decreases i,
    {
        let c = f.get_char(i - 1);
        if c == '/' {
            proof {
                assert(f@.subrange(0, i as int)[i - 1] == '/');
                assert(last_slash_index(f@.subrange(0, i as int)) == i - 1);
            }
            if i - 1 == 0 {
                if n == 1 {
                    return None;
                } else {
                    let s = String::from_str("/");
                    proof {
                        reveal_strlit("/");
                        assert(s@ =~= seq!['/']);
                    }
                    return Some(s);
                }
            } else {
                return Some(String::from_str(f.substring_char(0, i - 1)));
            }
        }
        proof {
            assert(f@.subrange(0, i as int).drop_last() =~= f@.subrange(0, i - 1));
        }
        i -= 1;
    }
    proof {
        assert(f@.subrange(0, 0) =~= Seq::<char>::empty());
    }
    if n == 0 {
        None
    } else {
        Some(String::new())
    }
}

pub fn strip_trailing_slashes_exec(s: String) -> (r: String)
    ensures
        r@ == strip_trailing_slashes(s@),
{
    let mut cur = s;
    while cur.as_str().unicode_len() > 1 && cur.as_str().get_char(
        cur.as_str().unicode_len() - 1,
    ) == '/'
        invariant
            strip_trailing_slashes(cur@) == strip_trailing_slashes(s@),
        decreases cur@.len(),
    {
        let n = cur.as_str().unicode_len();
        let next = String::from_str(cur.as_str().substring_char(0, n - 1));
        proof {
            assert(cur@.drop_last() =~= cur@.subrange(0, cur@.len() - 1));
        }
        cur = next;
    }
    cur
}

} // verus!
