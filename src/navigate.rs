//! The `cd` builtin's decisions. The working directory itself belongs to the
//! operating system: these functions say where to go and what to remember,
//! and the caller performs the change and reports whether it succeeded.
use crate::text::{chars_of, same_text, string_of};
use vstd::prelude::*;

verus! {

/// What `cd` remembers between calls: the directory before the last
/// successful change, if one happened.
pub struct DirState {
    pub previous: Option<String>,
}

/// What one `cd` call is to do.
pub enum CdPlan {
    /// Nothing: already at the target.
    Stay,
    /// Change to `target`; `announce` asks to print it first (as `cd -` does).
    Go { target: String, announce: bool },
    /// `cd -` before any successful change: an error, nothing changes.
    NoPrevious,
}

/// `rel` resolved against `base`: an absolute `rel` replaces `base`;
/// otherwise the two are joined with one separator.
pub open spec fn join_path(base: Seq<char>, rel: Seq<char>) -> Seq<char> {
    if rel.len() > 0 && rel[0] == '/' {
        rel
    } else if base.len() == 0 {
        rel
    } else if base.last() == '/' {
        base + rel
    } else {
        base.push('/') + rel
    }
}

/// `s` without every leading `~/`.
pub open spec fn strip_tilde_slash(s: Seq<char>) -> Seq<char>
    decreases s.len(),
{
    if s.len() >= 2 && s[0] == '~' && s[1] == '/' {
        strip_tilde_slash(s.subrange(2, s.len() as int))
    } else {
        s
    }
}

/// The directory that a `~` argument names, given the home directory.
pub open spec fn tilde_target(home: Seq<char>, arg: Seq<char>) -> Seq<char> {
    if arg == "~"@ || arg == "~/"@ {
        home
    } else {
        join_path(home, strip_tilde_slash(arg))
    }
}

/// The three possible outcomes of a `cd` call, by case.
pub open spec fn plan_ok(
    r: CdPlan,
    arg: Option<Seq<char>>,
    home: Seq<char>,
    current: Seq<char>,
    previous: Option<Seq<char>>,
) -> bool {
    match arg {
        None => if current == home {
            r is Stay
        } else {
            r matches CdPlan::Go { target, announce } && target@ == home && !announce
        },
        Some(a) => if a == "-"@ {
            match previous {
                None => r is NoPrevious,
                Some(p) => r matches CdPlan::Go { target, announce } && target@ == p && announce,
            }
        } else if a.len() > 0 && a[0] == '~' {
            r matches CdPlan::Go { target, announce } && target@ == tilde_target(home, a) && !announce
        } else {
            r matches CdPlan::Go { target, announce } && target@ == a && !announce
        },
    }
}

fn join_chars(base: &Vec<char>, rel: &Vec<char>) -> (r: Vec<char>)
    ensures
        r@ == join_path(base@, rel@),
{
    let mut r: Vec<char> = Vec::new();
    if rel.len() > 0 && rel[0] == '/' {
        r = rel.clone();
        return r;
    }
    if base.len() > 0 {
        r = base.clone();
        if base[base.len() - 1] != '/' {
            r.push('/');
        }
    }
    let ghost head = r@;
    let mut i: usize = 0;
    while i < rel.len()
        invariant
            i <= rel@.len(),
            r@ == head + rel@.subrange(0, i as int),
        decreases rel@.len() - i,
    {
        r.push(rel[i]);
        assert(rel@.subrange(0, i + 1) =~= rel@.subrange(0, i as int).push(rel@[i as int]));
        i += 1;
    }
    assert(rel@.subrange(0, rel@.len() as int) =~= rel@);
    assert(Seq::<char>::empty() + rel@ =~= rel@);
    r
}

fn strip_tilde_chars(s: &Vec<char>) -> (r: Vec<char>)
    ensures
        r@ == strip_tilde_slash(s@),
{
    let n = s.len();
    let mut a: usize = 0;
    assert(s@.subrange(0, n as int) =~= s@);
    while a < n && n - a >= 2 && s[a] == '~' && s[a + 1] == '/'
        invariant
            n == s@.len(),
            a <= n,
            strip_tilde_slash(s@) == strip_tilde_slash(s@.subrange(a as int, n as int)),
        decreases n - a,
    {
        let ghost t = s@.subrange(a as int, n as int);
        assert(t.subrange(2, t.len() as int) =~= s@.subrange(a + 2, n as int));
        a += 2;
    }
    let mut r: Vec<char> = Vec::new();
    let mut i: usize = a;
    while i < n
        invariant
            n == s@.len(),
            a <= i <= n,
            r@ == s@.subrange(a as int, i as int),
        decreases n - i,
    {
        r.push(s[i]);
        assert(s@.subrange(a as int, i + 1) =~= s@.subrange(a as int, i as int).push(s@[i as int]));
        i += 1;
    }
    r
}

/// Decides what `cd` does for its first argument, given the home directory,
/// the current directory and the remembered state. No argument goes home
/// (unless already there); `-` returns to the remembered directory, or fails
/// where none is remembered; a leading `~` is resolved under home; any other
/// argument is the target as written.
pub fn plan_cd(arg: Option<&str>, home: &str, current: &str, state: &DirState) -> (r: CdPlan)
    ensures
        plan_ok(
            r,
            match arg {
                Some(a) => Some(a@),
                None => None,
            },
            home@,
            current@,
            match state.previous {
                Some(p) => Some(p@),
                None => None,
            },
        ),
{
    match arg {
        None => {
            if same_text(current, home) {
                CdPlan::Stay
            } else {
                CdPlan::Go { target: string_of(&chars_of(home)), announce: false }
            }
        },
        Some(a) => {
            if same_text(a, "-") {
                match &state.previous {
                    None => CdPlan::NoPrevious,
                    Some(p) => CdPlan::Go { target: p.clone(), announce: true },
                }
            } else {
                let chars = chars_of(a);
                if chars.len() > 0 && chars[0] == '~' {
                    let h = chars_of(home);
                    if same_text(a, "~") || same_text(a, "~/") {
                        CdPlan::Go { target: string_of(&h), announce: false }
                    } else {
                        let rest = strip_tilde_chars(&chars);
                        let t = join_chars(&h, &rest);
                        CdPlan::Go { target: string_of(&t), announce: false }
                    }
                } else {
                    CdPlan::Go { target: string_of(&chars), announce: false }
                }
            }
        },
    }
}

/// Records the outcome of a change of directory: after a success the
/// directory left (`before`) is remembered; after a failure nothing changes.
pub fn record_cd(state: &mut DirState, before: String, succeeded: bool)
    ensures
        succeeded ==> final(state).previous == Some(before),
        !succeeded ==> *final(state) == *old(state),
{
    if succeeded {
        state.previous = Some(before);
    }
}

/// A home-relative `cd ~/x`, for a home without a trailing separator and a
/// relative `x` that does not itself begin with `~/`, goes to `home/x`.
pub proof fn lemma_cd_home_relative(
    r: CdPlan,
    x: Seq<char>,
    home: Seq<char>,
    current: Seq<char>,
    previous: Option<Seq<char>>,
)
    requires
        home.len() > 0,
        home.last() != '/',
        x.len() > 0,
        x[0] != '/',
        !(x.len() >= 2 && x[0] == '~' && x[1] == '/'),
        plan_ok(r, Some(seq!['~', '/'] + x), home, current, previous),
    ensures
        r matches CdPlan::Go { target, announce } && target@ == home.push('/') + x && !announce,
{
    let a = seq!['~', '/'] + x;
    assert(a[0] == '~');
    assert(a.len() > 2);
    assert(a != "-"@) by {
        reveal_strlit("-");
        assert(a.len() != "-"@.len());
    }
    assert(a != "~"@ && a != "~/"@) by {
        reveal_strlit("~");
        reveal_strlit("~/");
        assert(a.len() != "~"@.len());
        assert(a.len() != "~/"@.len());
    }
    assert(a.subrange(2, a.len() as int) =~= x);
    assert(strip_tilde_slash(x) == x);
    assert(strip_tilde_slash(a) == strip_tilde_slash(x));
}

} // verus!
