//! The directory part of the prompt: the working directory relative to home,
//! with every component but the last shortened to its first character.
use crate::text::{chars_of, same_text, string_of};
use crate::tokenize::{fields, non_empty, split_by, views};
use vstd::prelude::*;

verus! {

/// The path that is abbreviated: what follows `home` in `cwd` where `home`
/// begins it, else `cwd` itself.
pub open spec fn relative_to(cwd: Seq<char>, home: Seq<char>) -> Seq<char> {
    if home.len() <= cwd.len() && cwd.subrange(0, home.len() as int) == home {
        cwd.subrange(home.len() as int, cwd.len() as int)
    } else {
        cwd
    }
}

/// A separator and the first character of each of `parts`, in order.
pub open spec fn initials(parts: Seq<Seq<char>>) -> Seq<char>
    decreases parts.len(),
{
    if parts.len() == 0 {
        Seq::empty()
    } else {
        initials(parts.drop_last()) + seq!['/', parts.last()[0]]
    }
}

/// The prompt's directory text: empty at home, `/` where no component is
/// left, else the shortened components and the last one in full.
pub open spec fn abbreviated(cwd: Seq<char>, home: Seq<char>) -> Seq<char> {
    let parts = non_empty(split_by(relative_to(cwd, home), Some('/')));
    if cwd == home {
        Seq::empty()
    } else if parts.len() == 0 {
        seq!['/']
    } else {
        initials(parts.drop_last()) + seq!['/'] + parts.last()
    }
}

proof fn lemma_non_empty_members(p: Seq<Seq<char>>)
    ensures
        forall|i: int| 0 <= i < non_empty(p).len() ==> #[trigger] non_empty(p)[i].len() > 0,
    decreases p.len(),
{
    if p.len() > 0 {
        lemma_non_empty_members(p.drop_last());
        let q = non_empty(p.drop_last());
        assert forall|i: int| 0 <= i < non_empty(p).len() implies #[trigger] non_empty(p)[i].len() > 0 by {
            if i < q.len() {
                assert(non_empty(p)[i] == q[i]);
            }
        }
    }
}

fn is_prefix(pre: &Vec<char>, s: &Vec<char>) -> (r: bool)
    ensures
        r == (pre@.len() <= s@.len() && s@.subrange(0, pre@.len() as int) == pre@),
{
    if pre.len() > s.len() {
        return false;
    }
    let mut i: usize = 0;
    while i < pre.len()
        invariant
            pre@.len() <= s@.len(),
            i <= pre@.len(),
            s@.subrange(0, i as int) == pre@.subrange(0, i as int),
        decreases pre@.len() - i,
    {
        if pre[i] != s[i] {
            assert(s@.subrange(0, pre@.len() as int)[i as int] == s@[i as int]);
            return false;
        }
        assert(s@.subrange(0, i + 1) =~= s@.subrange(0, i as int).push(s@[i as int]));
        assert(pre@.subrange(0, i + 1) =~= pre@.subrange(0, i as int).push(pre@[i as int]));
        i += 1;
    }
    assert(pre@.subrange(0, pre@.len() as int) =~= pre@);
    true
}

/// The directory text of the prompt for working directory `cwd` and home
/// directory `home`.
pub fn format_path(cwd: &str, home: &str) -> (r: String)
    ensures
        r@ == abbreviated(cwd@, home@),
{
    if same_text(cwd, home) {
        return String::new();
    }
    let c = chars_of(cwd);
    let h = chars_of(home);
    let rel: Vec<char> = if is_prefix(&h, &c) {
        let mut v: Vec<char> = Vec::new();
        let mut i: usize = h.len();
        while i < c.len()
            invariant
                h@.len() <= i <= c@.len(),
                v@ == c@.subrange(h@.len() as int, i as int),
            decreases c@.len() - i,
        {
            v.push(c[i]);
            assert(c@.subrange(h@.len() as int, i + 1) =~= c@.subrange(h@.len() as int, i as int).push(
                c@[i as int],
            ));
            i += 1;
        }
        v
    } else {
        c.clone()
    };
    let parts = fields(&rel, Some('/'));
    let ghost ps = views(parts@);
    proof {
        lemma_non_empty_members(split_by(rel@, Some('/')));
    }
    if parts.len() == 0 {
        let mut out: Vec<char> = Vec::new();
        out.push('/');
        assert(out@ =~= seq!['/']);
        return string_of(&out);
    }
    let last = parts.len() - 1;
    let mut out: Vec<char> = Vec::new();
    let mut k: usize = 0;
    while k < last
        invariant
            ps == views(parts@),
            last == ps.len() - 1,
            k <= last,
            forall|i: int| 0 <= i < ps.len() ==> #[trigger] ps[i].len() > 0,
            out@ == initials(ps.subrange(0, k as int)),
        decreases last - k,
    {
        assert(ps[k as int] == parts@[k as int]@);
        out.push('/');
        out.push(parts[k][0]);
        assert(ps.subrange(0, k + 1).drop_last() =~= ps.subrange(0, k as int));
        k += 1;
    }
    assert(ps.subrange(0, last as int) =~= ps.drop_last());
    out.push('/');
    let tail = &parts[last];
    let ghost before = out@;
    let mut j: usize = 0;
    while j < tail.len()
        invariant
            j <= tail@.len(),
            out@ == before + tail@.subrange(0, j as int),
        decreases tail@.len() - j,
    {
        out.push(tail[j]);
        assert(tail@.subrange(0, j + 1) =~= tail@.subrange(0, j as int).push(tail@[j as int]));
        j += 1;
    }
    assert(tail@.subrange(0, tail@.len() as int) =~= tail@);
    assert(ps.last() == tail@);
    string_of(&out)
}

} // verus!
