//! Substitution of `$NAME` references in an input line. Five names are
//! known; any other reference is replaced by a marker naming it.
use crate::text::{alnum, chars_of, is_alnum, same_text, string_of, trim_chars, trimmed};
use crate::tokenize::{pipe_pieces, tokenize, Segment};
use vstd::prelude::*;
use vstd::string::StringExecFns;

verus! {

/// The values that the known variables stand for, read by the caller from
/// the environment (empty where unset).
pub struct EnvValues {
    pub home: String,
    pub path: String,
    pub user: String,
    /// The current directory, which `$PWD` stands for.
    pub cwd: String,
    pub lang: String,
}

/// A character that continues a variable name.
pub open spec fn name_char(c: char) -> bool {
    alnum(c) || c == '_'
}

/// The length of the variable name at the start of `s`.
pub open spec fn name_len(s: Seq<char>) -> nat
    decreases s.len(),
{
    if s.len() > 0 && name_char(s[0]) {
        1 + name_len(s.drop_first())
    } else {
        0
    }
}

/// A name is never longer than the text it starts.
pub proof fn lemma_name_len_bound(s: Seq<char>)
    ensures
        name_len(s) <= s.len(),
    decreases s.len(),
{
    if s.len() > 0 && name_char(s[0]) {
        lemma_name_len_bound(s.drop_first());
    }
}

/// What a reference to `name` is replaced by.
pub open spec fn replacement(env: EnvValues, name: Seq<char>) -> Seq<char> {
    if name == "HOME"@ {
        env.home@
    } else if name == "PATH"@ {
        env.path@
    } else if name == "USER"@ {
        env.user@
    } else if name == "PWD"@ {
        env.cwd@
    } else if name == "LANG"@ {
        env.lang@
    } else {
        "UNKNOWN YET VARIABLE: $"@ + name
    }
}

/// `s` with each `$` and the name after it replaced.
pub open spec fn expanded(env: EnvValues, s: Seq<char>) -> Seq<char>
    decreases s.len(),
{
    if s.len() == 0 {
        Seq::empty()
    } else if s[0] == '$' {
        let rest = s.drop_first();
        let n = name_len(rest);
        proof {
            lemma_name_len_bound(rest);
        }
        replacement(env, rest.subrange(0, n as int)) + expanded(
            env,
            rest.subrange(n as int, rest.len() as int),
        )
    } else {
        seq![s[0]] + expanded(env, s.drop_first())
    }
}

proof fn lemma_name_len_at(s: Seq<char>, i: int, j: int)
    requires
        0 <= i <= j <= s.len(),
        forall|k: int| i <= k < j ==> name_char(#[trigger] s[k]),
        j < s.len() ==> !name_char(s[j]),
    ensures
        name_len(s.subrange(i, s.len() as int)) == j - i,
    decreases j - i,
{
    let t = s.subrange(i, s.len() as int);
    if i < j {
        lemma_name_len_at(s, i + 1, j);
        assert(t.drop_first() =~= s.subrange(i + 1, s.len() as int));
    }
}

/// The replacement text for a variable name.
fn replacement_of(env: &EnvValues, name: &Vec<char>) -> (r: String)
    ensures
        r@ == replacement(*env, name@),
{
    let n = string_of(name);
    let s = n.as_str();
    if same_text(s, "HOME") {
        env.home.clone()
    } else if same_text(s, "PATH") {
        env.path.clone()
    } else if same_text(s, "USER") {
        env.user.clone()
    } else if same_text(s, "PWD") {
        env.cwd.clone()
    } else if same_text(s, "LANG") {
        env.lang.clone()
    } else {
        let mut r = String::from_str("UNKNOWN YET VARIABLE: $");
        r.append(s);
        r
    }
}

/// Replaces each `$NAME` in `input` (a name being the longest run of
/// alphanumeric characters and underscores after the `$`) by its value.
pub fn expand_env_variables(input: &str, env: &EnvValues) -> (r: String)
    ensures
        r@ == expanded(*env, input@),
{
    let s = chars_of(input);
    let n = s.len();
    let mut out: Vec<char> = Vec::new();
    let mut i: usize = 0;
    assert(s@.subrange(0, n as int) =~= s@);
    while i < n
        invariant
            n == s@.len(),
            s@ == input@,
            i <= n,
            out@ + expanded(*env, s@.subrange(i as int, n as int)) == expanded(*env, s@),
        decreases n - i,
    {
        let ghost t = s@.subrange(i as int, n as int);
        if s[i] == '$' {
            let mut j: usize = i + 1;
            while j < n && (is_alnum(s[j]) || s[j] == '_')
                invariant
                    n == s@.len(),
                    i < j <= n,
                    forall|k: int| i + 1 <= k < j ==> name_char(#[trigger] s@[k]),
                decreases n - j,
            {
                j += 1;
            }
            proof {
                lemma_name_len_at(s@, i + 1, j as int);
                assert(t.drop_first() =~= s@.subrange(i + 1, n as int));
            }
            let mut name: Vec<char> = Vec::new();
            let mut k: usize = i + 1;
            while k < j
                invariant
                    n == s@.len(),
                    i + 1 <= k <= j <= n,
                    name@ == s@.subrange(i + 1, k as int),
                decreases j - k,
            {
                name.push(s[k]);
                assert(s@.subrange(i + 1, k + 1) =~= s@.subrange(i + 1, k as int).push(s@[k as int]));
                k += 1;
            }
            let rep = replacement_of(env, &name);
            let rc = chars_of(rep.as_str());
            let ghost before = out@;
            let mut m: usize = 0;
            while m < rc.len()
                invariant
                    m <= rc@.len(),
                    out@ == before + rc@.subrange(0, m as int),
                decreases rc@.len() - m,
            {
                out.push(rc[m]);
                assert(rc@.subrange(0, m + 1) =~= rc@.subrange(0, m as int).push(rc@[m as int]));
                m += 1;
            }
            proof {
                let rest = t.drop_first();
                assert(rest.subrange(0, (j - i - 1) as int) =~= name@);
                assert(rest.subrange((j - i - 1) as int, rest.len() as int) =~= s@.subrange(j as int, n as int));
                assert(rc@.subrange(0, rc@.len() as int) =~= rc@);
                assert(out@ =~= before + replacement(*env, name@));
            }
            i = j;
        } else {
            let ghost before = out@;
            out.push(s[i]);
            proof {
                assert(t.drop_first() =~= s@.subrange(i + 1, n as int));
                assert(out@ =~= before + seq![s@[i as int]]);
            }
            i += 1;
        }
    }
    string_of(&out)
}

/// The pipeline that a submitted line stands for: the line without
/// surrounding whitespace, its variables expanded, split into segments.
pub fn parse_line(input: &str, env: &EnvValues) -> (r: Vec<Segment>)
    ensures
        r@.len() == pipe_pieces(expanded(*env, trimmed(input@))).len(),
        forall|i: int|
            0 <= i < r@.len() ==> #[trigger] r@[i].describes(
                pipe_pieces(expanded(*env, trimmed(input@)))[i],
            ),
{
    let t = string_of(&trim_chars(&chars_of(input)));
    let e = expand_env_variables(t.as_str(), env);
    tokenize(e.as_str())
}

} // verus!
