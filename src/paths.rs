//! Paths as strings of characters, with `/` as the separator.

use vstd::prelude::*;

verus! {

/// A path that starts at the root of its tree.
pub open spec fn is_absolute(p: Seq<char>) -> bool {
    p.len() > 0 && p[0] == '/'
}

/// A path as a listing yields it below its root: not empty and not absolute.
pub open spec fn is_relative_path(p: Seq<char>) -> bool {
    p.len() > 0 && p[0] != '/'
}

/// `root` joined with `rel`: an empty `rel` leaves `root`; an absolute `rel`, or an
/// empty `root`, gives `rel`; otherwise one separator stands between the two.
pub open spec fn join_path(root: Seq<char>, rel: Seq<char>) -> Seq<char> {
    if rel.len() == 0 {
        root
    } else if is_absolute(rel) || root.len() == 0 {
        rel
    } else if root.last() == '/' {
        root + rel
    } else {
        root + seq!['/'] + rel
    }
}

/// The directory part of a relative path: what stands before its last separator,
/// or the empty path where it has none.
pub open spec fn parent_path(p: Seq<char>) -> Seq<char>
    decreases p.len(),
{
    if p.len() == 0 {
        p
    } else if p.last() == '/' {
        p.drop_last()
    } else {
        parent_path(p.drop_last())
    }
}

/// Joining a fixed root with two different relative paths gives two different paths.
pub proof fn lemma_join_injective(root: Seq<char>, a: Seq<char>, b: Seq<char>)
    requires
        is_relative_path(a),
        is_relative_path(b),
        join_path(root, a) == join_path(root, b),
    ensures
        a == b,
{
    let ja = join_path(root, a);
    if root.len() == 0 {
    } else if root.last() == '/' {
        assert(a =~= ja.subrange(root.len() as int, ja.len() as int));
        assert(b =~= ja.subrange(root.len() as int, ja.len() as int));
    } else {
        assert(a =~= ja.subrange(root.len() + 1 as int, ja.len() as int));
        assert(b =~= ja.subrange(root.len() + 1 as int, ja.len() as int));
    }
}

/// Concatenation of two strings.
fn concat_str(a: &str, b: &str) -> (r: String)
    ensures
        r@ == a@ + b@,
{
    let s = a.to_owned();
    s.concat(b)
}

/// Executable form of [`join_path`].
pub fn join_paths(root: &str, rel: &str) -> (r: String)
    ensures
        r@ == join_path(root@, rel@),
{
    let rel_len = rel.unicode_len();
    let root_len = root.unicode_len();
    if rel_len == 0 {
        return root.to_owned();
    }
    if rel.get_char(0) == '/' || root_len == 0 {
        return rel.to_owned();
    }
    if root.get_char(root_len - 1) == '/' {
        concat_str(root, rel)
    } else {
        let with_sep = concat_str(root, "/");
        proof {
            reveal_strlit("/");
        }
        let r = concat_str(with_sep.as_str(), rel);
        assert(r@ =~= root@ + seq!['/'] + rel@);
        r
    }
}

/// Executable form of [`parent_path`].
pub fn parent_of(p: &str) -> (r: String)
    ensures
        r@ == parent_path(p@),
{
    let len = p.unicode_len();
    let mut i: usize = len;
    proof {
        assert(p@.subrange(0, len as int) =~= p@);
    }
    while i > 0
        invariant
            i <= len,
            len == p@.len(),
            parent_path(p@.subrange(0, i as int)) == parent_path(p@),
        decreases i,
    {
        if p.get_char(i - 1) == '/' {
            let r = p.substring_char(0, i - 1);
            proof {
                let s = p@.subrange(0, i as int);
                assert(s.drop_last() =~= p@.subrange(0, i - 1));
            }
            return r.to_owned();
        }
        proof {
            let s = p@.subrange(0, i as int);
            assert(s.drop_last() =~= p@.subrange(0, i - 1));
        }
        i = i - 1;
    }
    proof {
        assert(p@.subrange(0, 0) =~= Seq::<char>::empty());
    }
    String::new()
}

/// The pieces of `p` between separators, empty ones included.
pub open spec fn segments(p: Seq<char>) -> Seq<Seq<char>>
    decreases p.len(),
{
    if p.len() == 0 {
        seq![Seq::empty()]
    } else {
        let s = segments(p.drop_last());
        if p.last() == '/' {
            s.push(Seq::empty())
        } else {
            s.update(s.len() - 1, s.last().push(p.last()))
        }
    }
}

proof fn lemma_segments_nonempty(p: Seq<char>)
    ensures
        segments(p).len() >= 1,
    decreases p.len(),
{
    if p.len() > 0 {
        lemma_segments_nonempty(p.drop_last());
    }
}

/// A piece that names a directory: not empty, not `.` and not `..`.
pub open spec fn is_component(seg: Seq<char>) -> bool {
    seg.len() > 0 && seg != seq!['.'] && seg != seq!['.', '.']
}

/// The pieces that name directories, in order.
pub open spec fn components(segs: Seq<Seq<char>>) -> Seq<Seq<char>>
    decreases segs.len(),
{
    if segs.len() == 0 {
        Seq::empty()
    } else {
        components(segs.drop_last()) + if is_component(segs.last()) { seq![segs.last()] } else { Seq::empty() }
    }
}

/// The paths of the directories named by `comps`, outermost first, starting from
/// the root where `abs` holds.
pub open spec fn chain(abs: bool, comps: Seq<Seq<char>>) -> Seq<Seq<char>>
    decreases comps.len(),
{
    if comps.len() == 0 {
        Seq::empty()
    } else {
        let prev = chain(abs, comps.drop_last());
        let base = if prev.len() == 0 {
            if abs { seq!['/'] } else { Seq::empty() }
        } else {
            prev.last() + seq!['/']
        };
        prev.push(base + comps.last())
    }
}

/// The directories to ensure, outermost first, for the directory `p` to exist:
/// one per component, `.` and `..` and empty pieces skipped.
pub open spec fn dir_chain(p: Seq<char>) -> Seq<Seq<char>> {
    chain(is_absolute(p), components(segments(p)))
}

/// Executable form of [`is_component`].
fn component_piece(seg: &String) -> (r: bool)
    ensures
        r == is_component(seg@),
{
    proof {
        reveal_strlit(".");
        reveal_strlit("..");
    }
    let dot = ".".to_owned();
    let dots = "..".to_owned();
    assert(dot@ =~= seq!['.']);
    assert(dots@ =~= seq!['.', '.']);
    seg.as_str().unicode_len() > 0 && !(*seg == dot) && !(*seg == dots)
}

/// Appends to `out` the directory for `seg`, where `seg` names one.
fn push_dir(out: &mut Vec<String>, abs: bool, seg: &String, ghost_comps: Ghost<Seq<Seq<char>>>)
    requires
        old(out)@.map_values(|s: String| s@) == chain(abs, ghost_comps@),
    ensures
        final(out)@.map_values(|s: String| s@) == chain(abs, ghost_comps@ + if is_component(seg@) { seq![seg@] } else { Seq::empty() }),
{
    let ghost comps = ghost_comps@;
    if !component_piece(seg) {
        assert(comps + Seq::<Seq<char>>::empty() =~= comps);
        return;
    }
    let ghost before = out@;
    let ghost prev = chain(abs, comps);
    let n = out.len();
    proof {
        reveal_strlit("/");
    }
    let mut path = if n == 0 {
        if abs { "/".to_owned() } else { String::new() }
    } else {
        let mut last = out[n - 1].clone();
        last.append("/");
        last
    };
    let ghost base = path@;
    path.append(seg.as_str());
    proof {
        let next = comps + seq![seg@];
        assert(next.drop_last() =~= comps);
        assert(next.last() == seg@);
        assert(prev.len() == n);
        if n > 0 {
            assert(prev.last() == before[n - 1]@);
            assert(base =~= prev.last() + seq!['/']);
        } else {
            if abs {
                assert(base =~= seq!['/']);
            } else {
                assert(base =~= Seq::<char>::empty());
            }
        }
        assert(chain(abs, next) == prev.push(base + seg@));
        assert(path@ =~= base + seg@);
    }
    out.push(path);
    proof {
        assert(out@.map_values(|s: String| s@) =~= before.map_values(|s: String| s@).push(path@));
    }
}

/// The directories to ensure, outermost first, for a directory path to exist (see
/// [`dir_chain`]).
pub fn dir_prefixes(p: &str) -> (r: Vec<String>)
    ensures
        r@.map_values(|s: String| s@) == dir_chain(p@),
{
    let n = p.unicode_len();
    let abs = n > 0 && p.get_char(0) == '/';
    let mut out: Vec<String> = Vec::new();
    let mut cur = String::new();
    let ghost mut done: Seq<Seq<char>> = Seq::empty();
    let mut i: usize = 0;
    proof {
        assert(p@.take(0) =~= Seq::<char>::empty());
        assert(segments(p@.take(0)) =~= done.push(cur@));
        assert(out@.map_values(|s: String| s@) =~= chain(abs, components(done)));
    }
    while i < n
        invariant
            i <= n,
            n == p@.len(),
            abs == is_absolute(p@),
            segments(p@.take(i as int)) == done.push(cur@),
            out@.map_values(|s: String| s@) == chain(abs, components(done)),
        decreases n - i,
    {
        let c = p.get_char(i);
        proof {
            assert(p@.take(i + 1).drop_last() =~= p@.take(i as int));
            assert(p@.take(i + 1).last() == c);
        }
        if c == '/' {
            push_dir(&mut out, abs, &cur, Ghost(components(done)));
            proof {
                let nd = done.push(cur@);
                assert(nd.drop_last() =~= done);
                assert(components(nd) == components(done) + if is_component(cur@) { seq![cur@] } else { Seq::<Seq<char>>::empty() });
                done = nd;
            }
            cur = String::new();
            proof {
                assert(segments(p@.take(i + 1)) =~= done.push(cur@));
            }
        } else {
            let piece = p.substring_char(i, i + 1);
            let ghost old_cur = cur@;
            cur.append(piece);
            proof {
                assert(piece@ =~= seq![c]);
                assert(cur@ =~= old_cur.push(c));
                assert(segments(p@.take(i + 1)) =~= done.push(cur@));
            }
        }
        i = i + 1;
    }
    push_dir(&mut out, abs, &cur, Ghost(components(done)));
    proof {
        assert(p@.take(n as int) =~= p@);
        let nd = done.push(cur@);
        assert(nd.drop_last() =~= done);
    }
    out
}

} // verus!
