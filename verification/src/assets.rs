//! Composition-relative asset paths.
use vstd::prelude::*;
use crate::error::{WavyteError, WavyteResult};
use crate::text::{is_word, push_char, push_str};

verus! {

/// `\` read as `/`; every other character unchanged.
pub open spec fn slash_char(c: char) -> char {
    if c == '\\' { '/' } else { c }
}

/// `s` with every `\` replaced by `/`.
pub open spec fn to_slashes(s: Seq<char>) -> Seq<char> {
    s.map_values(|c: char| slash_char(c))
}

/// The pieces of `s` between `/` characters, empty pieces included (`""` gives one empty piece).
pub open spec fn split_slash(s: Seq<char>) -> Seq<Seq<char>>
    decreases s.len(),
{
    if s.len() == 0 {
        seq![Seq::empty()]
    } else {
        let prev = split_slash(s.drop_last());
        if s.last() == '/' {
            prev.push(Seq::empty())
        } else {
            prev.update(prev.len() - 1, prev.last().push(s.last()))
        }
    }
}

/// A piece that names something: not empty and not `.`.
pub open spec fn keep_part(p: Seq<char>) -> bool {
    p.len() > 0 && p != "."@
}

/// The pieces that [`keep_part`] keeps, in order.
pub open spec fn kept_parts(ps: Seq<Seq<char>>) -> Seq<Seq<char>>
    decreases ps.len(),
{
    if ps.len() == 0 {
        Seq::empty()
    } else {
        let k = kept_parts(ps.drop_last());
        if keep_part(ps.last()) { k.push(ps.last()) } else { k }
    }
}

/// Pieces joined with `/`.
pub open spec fn join_slash(ps: Seq<Seq<char>>) -> Seq<char>
    decreases ps.len(),
{
    if ps.len() == 0 {
        Seq::empty()
    } else if ps.len() == 1 {
        ps[0]
    } else {
        join_slash(ps.drop_last()) + "/"@ + ps.last()
    }
}

/// An ASCII letter.
pub open spec fn is_ascii_letter(c: char) -> bool {
    ('a' <= c <= 'z') || ('A' <= c <= 'Z')
}

/// An absolute path (with `/` separators): it starts at the root (`/`) or at the root of a
/// drive (`C:/`). A name such as `C:` or `a:b.png` is relative.
pub open spec fn is_absolute(s: Seq<char>) -> bool {
    (s.len() > 0 && s[0] == '/') || (s.len() >= 3 && is_ascii_letter(s[0]) && s[1] == ':' && s[2] == '/')
}

/// Normalized form of an asset path, or the message of the validation error it is refused with.
pub open spec fn spec_normalize_rel_path(source: Seq<char>) -> Result<Seq<char>, Seq<char>> {
    let s = to_slashes(source);
    if is_absolute(s) {
        Err("asset paths must be relative"@)
    } else if s.len() == 0 {
        Err("asset path must be non-empty"@)
    } else if split_slash(s).contains(".."@) {
        Err("asset paths must not contain '..'"@)
    } else if kept_parts(split_slash(s)).len() == 0 {
        Err("asset path must contain a file name"@)
    } else if is_absolute(join_slash(kept_parts(split_slash(s)))) {
        Err("asset paths must be relative"@)
    } else {
        Ok(join_slash(kept_parts(split_slash(s))))
    }
}

proof fn lemma_finish_part(done: Seq<Seq<char>>, p: Seq<char>)
    ensures
        kept_parts(done.push(p)) == (if keep_part(p) { kept_parts(done).push(p) } else { kept_parts(done) }),
        join_slash(kept_parts(done).push(p))
            == (if kept_parts(done).len() == 0 { p } else { join_slash(kept_parts(done)) + seq!['/'] + p }),
{
    reveal_strlit("/");
    assert(done.push(p).drop_last() =~= done);
    assert(kept_parts(done).push(p).drop_last() =~= kept_parts(done));
}

/// No character of `p` is `c`.
pub open spec fn no_char(p: Seq<char>, c: char) -> bool {
    forall|i: int| 0 <= i < p.len() ==> p[i] != c
}

proof fn lemma_split_pieces(s: Seq<char>)
    ensures
        split_slash(s).len() >= 1,
        forall|k: int| 0 <= k < split_slash(s).len() ==> no_char(#[trigger] split_slash(s)[k], '/'),
        no_char(s, '\\') ==> forall|k: int| 0 <= k < split_slash(s).len() ==> no_char(#[trigger] split_slash(s)[k], '\\'),
    decreases s.len(),
{
    if s.len() > 0 {
        let t = s.drop_last();
        lemma_split_pieces(t);
        if no_char(s, '\\') {
            assert(no_char(t, '\\')) by {
                assert forall|i: int| 0 <= i < t.len() implies t[i] != '\\' by {
                    assert(t[i] == s[i]);
                }
            }
        }
        let prev = split_slash(t);
        if s.last() != '/' {
            let q = prev.last().push(s.last());
            assert(no_char(q, '/')) by {
                assert(no_char(prev[prev.len() - 1], '/'));
            }
            if no_char(s, '\\') {
                assert(no_char(q, '\\')) by {
                    assert(no_char(prev[prev.len() - 1], '\\'));
                    assert(s[s.len() - 1] != '\\');
                }
            }
        }
    }
}

proof fn lemma_kept_from(ps: Seq<Seq<char>>)
    ensures
        forall|j: int| 0 <= j < kept_parts(ps).len() ==> ps.contains(#[trigger] kept_parts(ps)[j]) && keep_part(kept_parts(ps)[j]),
    decreases ps.len(),
{
    if ps.len() > 0 {
        let t = ps.drop_last();
        lemma_kept_from(t);
        assert forall|j: int| 0 <= j < kept_parts(ps).len() implies ps.contains(#[trigger] kept_parts(ps)[j]) && keep_part(kept_parts(ps)[j]) by {
            if j < kept_parts(t).len() {
                assert(kept_parts(ps)[j] == kept_parts(t)[j]);
                let i = choose|i: int| 0 <= i < t.len() && t[i] == kept_parts(t)[j];
                assert(ps[i] == t[i]);
            } else {
                assert(kept_parts(ps)[j] == ps[ps.len() - 1]);
            }
        }
    }
}

proof fn lemma_kept_all(ps: Seq<Seq<char>>)
    requires
        forall|k: int| 0 <= k < ps.len() ==> keep_part(#[trigger] ps[k]),
    ensures
        kept_parts(ps) == ps,
    decreases ps.len(),
{
    if ps.len() > 0 {
        lemma_kept_all(ps.drop_last());
        assert(keep_part(ps[ps.len() - 1]));
        assert(ps.drop_last().push(ps.last()) =~= ps);
    }
}

proof fn lemma_split_one(b: Seq<char>)
    requires
        no_char(b, '/'),
    ensures
        split_slash(b) == seq![b],
    decreases b.len(),
{
    if b.len() == 0 {
        assert(b =~= Seq::<char>::empty());
    } else {
        let t = b.drop_last();
        lemma_split_one(t);
        assert(b[b.len() - 1] != '/');
        assert(t.push(b.last()) =~= b);
        assert(seq![t].update(0, t.push(b.last())) =~= seq![b]);
    }
}

proof fn lemma_split_after_slash(x: Seq<char>, b: Seq<char>)
    requires
        no_char(b, '/'),
    ensures
        split_slash(x + seq!['/'] + b) == split_slash(x).push(b),
    decreases b.len(),
{
    if b.len() == 0 {
        assert(b =~= Seq::<char>::empty());
        assert(x + seq!['/'] + b =~= x.push('/'));
        assert(x.push('/').last() == '/');
        assert(x.push('/').drop_last() =~= x);
    } else {
        let t = b.drop_last();
        lemma_split_after_slash(x, t);
        assert(b[b.len() - 1] != '/');
        assert((x + seq!['/'] + b).drop_last() =~= x + seq!['/'] + t);
        assert((x + seq!['/'] + b).last() == b.last());
        assert(split_slash(x).push(t).update(split_slash(x).len() as int, t.push(b.last())) =~= split_slash(x).push(b)) by {
            assert(t.push(b.last()) =~= b);
        }
    }
}

proof fn lemma_split_join(ps: Seq<Seq<char>>)
    requires
        ps.len() >= 1,
        forall|k: int| 0 <= k < ps.len() ==> no_char(#[trigger] ps[k], '/'),
    ensures
        split_slash(join_slash(ps)) == ps,
    decreases ps.len(),
{
    reveal_strlit("/");
    if ps.len() == 1 {
        lemma_split_one(ps[0]);
        assert(seq![ps[0]] =~= ps);
    } else {
        let t = ps.drop_last();
        lemma_split_join(t);
        assert(no_char(ps[ps.len() - 1], '/'));
        assert("/"@ =~= seq!['/']);
        lemma_split_after_slash(join_slash(t), ps.last());
        assert(t.push(ps.last()) =~= ps);
    }
}

proof fn lemma_join_no_char(ps: Seq<Seq<char>>, c: char)
    requires
        c != '/',
        forall|k: int| 0 <= k < ps.len() ==> no_char(#[trigger] ps[k], c),
    ensures
        no_char(join_slash(ps), c),
    decreases ps.len(),
{
    reveal_strlit("/");
    if ps.len() == 1 {
        assert(no_char(ps[0], c));
    } else if ps.len() > 1 {
        let t = ps.drop_last();
        lemma_join_no_char(t, c);
        let j = join_slash(ps);
        let a = join_slash(t);
        let l = ps[ps.len() - 1];
        assert(no_char(l, c));
        assert(j == a + "/"@ + l);
        assert forall|i: int| 0 <= i < j.len() implies j[i] != c by {
            if i < a.len() {
                assert(j[i] == a[i]);
            } else if i == a.len() {
                assert(j[i] == '/');
            } else {
                assert(j[i] == l[i - a.len() - 1]);
            }
        }
    }
}

/// A normalized path holds no `\` and splits at `/` into exactly the kept pieces of the
/// source: none of them empty or `.`.
pub proof fn law_normalized_path_is_clean(source: Seq<char>, p: Seq<char>)
    requires
        spec_normalize_rel_path(source) == Ok::<Seq<char>, Seq<char>>(p),
    ensures
        no_char(p, '\\'),
        split_slash(p) == kept_parts(split_slash(to_slashes(source))),
        forall|k: int| 0 <= k < split_slash(p).len() ==> keep_part(#[trigger] split_slash(p)[k]),
{
    let s = to_slashes(source);
    let ps = split_slash(s);
    let kept = kept_parts(ps);
    assert(no_char(s, '\\'));
    lemma_split_pieces(s);
    lemma_kept_from(ps);
    assert forall|k: int| 0 <= k < kept.len() implies no_char(#[trigger] kept[k], '/') && no_char(kept[k], '\\') by {
        let i = choose|i: int| 0 <= i < ps.len() && ps[i] == kept[k];
        assert(no_char(ps[i], '/'));
    }
    lemma_split_join(kept);
    lemma_join_no_char(kept, '\\');
}

/// Normalizing a normalized path gives it back.
pub proof fn law_normalize_rel_path_idempotent(source: Seq<char>, p: Seq<char>)
    requires
        spec_normalize_rel_path(source) == Ok::<Seq<char>, Seq<char>>(p),
    ensures
        spec_normalize_rel_path(p) == Ok::<Seq<char>, Seq<char>>(p),
{
    let s = to_slashes(source);
    let ps = split_slash(s);
    let kept = kept_parts(ps);
    law_normalized_path_is_clean(source, p);
    assert(to_slashes(p) =~= p) by {
        assert forall|i: int| 0 <= i < p.len() implies to_slashes(p)[i] == p[i] by {
            assert(p[i] != '\\');
        }
    }
    lemma_kept_from(ps);
    lemma_kept_all(kept);
    if p.len() == 0 {
        assert(split_slash(p) == seq![Seq::<char>::empty()]);
        assert(keep_part(split_slash(p)[0]));
    }
    if kept.contains(".."@) {
        let j = choose|j: int| 0 <= j < kept.len() && kept[j] == ".."@;
        assert(ps.contains(kept[j]));
    }
}

/// Normalize and validate a composition-relative asset path.
///
/// The result uses `/` separators (a `\` counts as one), drops empty and `.` pieces, and
/// refuses absolute paths (from the root, or from a drive's root such as `C:\`), empty paths,
/// paths with a `..` piece, paths that name nothing, and paths whose result would start at a
/// drive's root.
pub fn normalize_rel_path(source: &str) -> (r: WavyteResult<String>)
    ensures
        match r {
            Ok(p) => spec_normalize_rel_path(source@) == Ok::<Seq<char>, Seq<char>>(p@),
            Err(WavyteError::Validation(m)) => spec_normalize_rel_path(source@) == Err::<Seq<char>, Seq<char>>(m@),
            Err(WavyteError::Evaluation(_)) => false,
        },
{
    let ghost s = to_slashes(source@);
    let n = source.unicode_len();
    if n > 0 && source.get_char(0) == '/' || n > 0 && source.get_char(0) == '\\' {
        return Err(WavyteError::validation("asset paths must be relative"));
    }
    if n >= 3 {
        let c0 = source.get_char(0);
        let c2 = source.get_char(2);
        if (('a' <= c0 && c0 <= 'z') || ('A' <= c0 && c0 <= 'Z')) && source.get_char(1) == ':' && (c2 == '/' || c2 == '\\') {
            return Err(WavyteError::validation("asset paths must be relative"));
        }
    }
    if n == 0 {
        return Err(WavyteError::validation("asset path must be non-empty"));
    }
    let mut done: Ghost<Seq<Seq<char>>> = Ghost(Seq::empty());
    let mut cur = String::new();
    let mut out = String::new();
    let mut n_kept: usize = 0;
    let mut saw_parent = false;
    let mut i: usize = 0;
    assert(s.take(0) =~= Seq::<char>::empty());
    assert(split_slash(s.take(0)) =~= done@.push(cur@));
    while i < n
        invariant
            n == source@.len(),
            s == to_slashes(source@),
            i <= n,
            split_slash(s.take(i as int)) == done@.push(cur@),
            out@ == join_slash(kept_parts(done@)),
            n_kept == kept_parts(done@).len(),
            n_kept + cur@.len() <= i,
            saw_parent == done@.contains(".."@),
        decreases n - i,
    {
        let c0 = source.get_char(i);
        let c = if c0 == '\\' { '/' } else { c0 };
        assert(c == s[i as int]);
        assert(s.take(i + 1).drop_last() =~= s.take(i as int));
        if c == '/' {
            let ghost p = cur@;
            if is_word(&cur, "..") {
                saw_parent = true;
            }
            if !cur.as_str().is_empty() && !is_word(&cur, ".") {
                if n_kept > 0 {
                    push_char(&mut out, '/');
                }
                push_str(&mut out, cur.as_str());
                n_kept = n_kept + 1;
            }
            proof {
                lemma_finish_part(done@, p);
                assert(done@.push(p).contains(".."@) == (done@.contains(".."@) || p == ".."@)) by {
                    if p == ".."@ {
                        assert(done@.push(p)[done@.len() as int] == p);
                    }
                    if done@.contains(".."@) {
                        let k = choose|k: int| 0 <= k < done@.len() && done@[k] == ".."@;
                        assert(done@.push(p)[k] == ".."@);
                    }
                }
                done@ = done@.push(p);
            }
            cur = String::new();
            assert(split_slash(s.take(i + 1)) =~= done@.push(cur@));
        } else {
            let ghost before = cur@;
            push_char(&mut cur, c);
            assert(split_slash(s.take(i + 1)) =~= done@.push(cur@));
        }
        i = i + 1;
    }
    assert(s.take(n as int) =~= s);
    let ghost p = cur@;
    if is_word(&cur, "..") {
        saw_parent = true;
    }
    if !cur.as_str().is_empty() && !is_word(&cur, ".") {
        if n_kept > 0 {
            push_char(&mut out, '/');
        }
        push_str(&mut out, cur.as_str());
        n_kept = n_kept + 1;
    }
    proof {
        let all = done@.push(p);
        lemma_finish_part(done@, p);
        assert(split_slash(s) == all);
        assert(out@ =~= join_slash(kept_parts(all)));
        assert(n_kept == kept_parts(all).len());
        assert(all.contains(".."@) == (done@.contains(".."@) || p == ".."@)) by {
            if p == ".."@ {
                assert(all[done@.len() as int] == p);
            }
            if done@.contains(".."@) {
                let k = choose|k: int| 0 <= k < done@.len() && done@[k] == ".."@;
                assert(all[k] == ".."@);
            }
        }
    }
    if saw_parent {
        return Err(WavyteError::validation("asset paths must not contain '..'"));
    }
    if n_kept == 0 {
        return Err(WavyteError::validation("asset path must contain a file name"));
    }
    // A result that would start at a drive's root (`./C:/x` gives `C:/x`) is refused too.
    let m = out.unicode_len();
    if m > 0 && out.get_char(0) == '/' {
        return Err(WavyteError::validation("asset paths must be relative"));
    }
    if m >= 3 {
        let d0 = out.get_char(0);
        if (('a' <= d0 && d0 <= 'z') || ('A' <= d0 && d0 <= 'Z')) && out.get_char(1) == ':' && out.get_char(2) == '/' {
            return Err(WavyteError::validation("asset paths must be relative"));
        }
    }
    Ok(out)
}

} // verus!
