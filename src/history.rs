//! The command history: an ordered, bounded log of accepted lines kept in
//! rustyline's history (so that line editing can recall it), and the plain
//! text file format that mirrors it between sessions, one entry per line.
use crate::text::{chars_of, same_text, string_of, trim_chars, trimmed};
use crate::tokenize::{split_by, split_chars, views};
use rustyline::history::DefaultHistory;
use vstd::prelude::*;

verus! {

/// How many entries the in-memory history keeps.
pub const HISTSIZE: usize = 1500;

/// How many of the newest entries a history file keeps.
pub const HISTFILESIZE: usize = 2200;

#[verifier::external_type_specification]
#[verifier::external_body]
pub struct ExDefaultHistory(DefaultHistory);

/// The entries held by a rustyline history, oldest first.
pub uninterp spec fn history_entries(h: DefaultHistory) -> Seq<Seq<char>>;

/// The bound on the number of entries that a rustyline history keeps.
pub uninterp spec fn history_max_len(h: DefaultHistory) -> nat;

/// Whether a rustyline history skips a line equal to its newest entry.
pub uninterp spec fn history_ignores_dups(h: DefaultHistory) -> bool;

/// Whether a rustyline history skips lines that begin with whitespace.
pub uninterp spec fn history_ignores_space(h: DefaultHistory) -> bool;

/// The entries after offering `line` to a history that holds `e`, keeps at most
/// `max` entries and skips consecutive duplicates when `dups` holds.
pub open spec fn added(e: Seq<Seq<char>>, max: nat, dups: bool, line: Seq<char>) -> Seq<Seq<char>> {
    if max == 0 || line.len() == 0 || (dups && e.len() > 0 && e.last() == line) {
        e
    } else if e.len() == max {
        e.drop_first().push(line)
    } else {
        e.push(line)
    }
}

/// The newest `n` members of `e` (all of them where it has fewer).
pub open spec fn newest(e: Seq<Seq<char>>, n: nat) -> Seq<Seq<char>> {
    if e.len() > n {
        e.subrange(e.len() - n, e.len() as int)
    } else {
        e
    }
}

/// The shell's history: bounded by `HISTSIZE`, skipping consecutive
/// duplicates, recording lines that begin with whitespace.
pub open spec fn well_formed(h: DefaultHistory) -> bool {
    &&& history_max_len(h) == HISTSIZE
    &&& history_ignores_dups(h)
    &&& !history_ignores_space(h)
    &&& valid_entries(history_entries(h))
}

/// What a bounded, duplicate-skipping history can hold: at most `HISTSIZE`
/// non-empty entries, no two neighbours equal.
pub open spec fn valid_entries(e: Seq<Seq<char>>) -> bool {
    &&& e.len() <= HISTSIZE
    &&& forall|i: int| 0 <= i < e.len() ==> #[trigger] e[i].len() > 0
    &&& no_repeats(e)
}

/// No two neighbouring members of `e` are equal.
pub open spec fn no_repeats(e: Seq<Seq<char>>) -> bool {
    forall|i: int, j: int| 0 <= i && j == i + 1 && j < e.len() ==> #[trigger] e[i] != #[trigger] e[j]
}

/// The entry that an input line contributes: the line without surrounding
/// whitespace, or nothing where that is empty or the raw line begins with a
/// space.
pub open spec fn entry_of(input: Seq<char>) -> Option<Seq<char>> {
    if trimmed(input).len() == 0 || (input.len() > 0 && input[0] == ' ') {
        None
    } else {
        Some(trimmed(input))
    }
}

/// The entries after one submitted line is accepted.
pub open spec fn accept_step(e: Seq<Seq<char>>, input: Seq<char>) -> Seq<Seq<char>> {
    match entry_of(input) {
        Some(t) => added(e, HISTSIZE as nat, true, t),
        None => e,
    }
}

/// The entries after each of `inputs` in turn is accepted.
pub open spec fn accepted_all(e: Seq<Seq<char>>, inputs: Seq<Seq<char>>) -> Seq<Seq<char>>
    decreases inputs.len(),
{
    if inputs.len() == 0 {
        e
    } else {
        accept_step(accepted_all(e, inputs.drop_last()), inputs.last())
    }
}

/// The entries that `inputs` contribute, one for each input that gives one.
pub open spec fn entries_of(inputs: Seq<Seq<char>>) -> Seq<Seq<char>> {
    inputs.map_values(|x: Seq<char>| entry_of(x)->0)
}

/// The entries after offering each of `lines` in turn to the shell's history.
pub open spec fn added_all(e: Seq<Seq<char>>, lines: Seq<Seq<char>>) -> Seq<Seq<char>>
    decreases lines.len(),
{
    if lines.len() == 0 {
        e
    } else {
        added(added_all(e, lines.drop_last()), HISTSIZE as nat, true, lines.last())
    }
}

/// The text of a history file holding `e`: each entry followed by a line feed.
pub open spec fn file_text(e: Seq<Seq<char>>) -> Seq<char>
    decreases e.len(),
{
    if e.len() == 0 {
        Seq::empty()
    } else {
        file_text(e.drop_last()) + e.last().push('\n')
    }
}

/// The lines of a history file's text: its pieces between line feeds.
pub open spec fn file_lines(text: Seq<char>) -> Seq<Seq<char>> {
    split_by(text, Some('\n'))
}

/// Relies on rustyline's `FileHistory::new`: no entries, the default
/// `Config` (bound of 100, consecutive duplicates skipped, space kept).
#[verifier::external_body]
fn default_history() -> (r: DefaultHistory)
    ensures
        history_entries(r) == Seq::<Seq<char>>::empty(),
        history_max_len(r) == 100,
        history_ignores_dups(r),
        !history_ignores_space(r),
{
    DefaultHistory::new()
}

/// Relies on rustyline's `FileHistory::set_max_len`: sets the bound and drops
/// the oldest entries beyond it; it always returns `Ok`.
#[verifier::external_body]
fn set_max_len(h: &mut DefaultHistory, len: usize)
    ensures
        history_max_len(*final(h)) == len,
        history_entries(*final(h)) == newest(history_entries(*old(h)), len as nat),
        history_ignores_dups(*final(h)) == history_ignores_dups(*old(h)),
        history_ignores_space(*final(h)) == history_ignores_space(*old(h)),
{
    let _ = rustyline::history::History::set_max_len(h, len);
}

/// Relies on rustyline's `FileHistory::add`: skips an empty line, a line equal
/// to the newest entry (when duplicates are ignored), and everything under a
/// bound of zero; otherwise drops the oldest entry at the bound and appends.
/// It always returns `Ok`.
#[verifier::external_body]
fn add_entry(h: &mut DefaultHistory, line: &str)
    ensures
        !history_ignores_space(*old(h)) ==> history_entries(*final(h)) == added(
            history_entries(*old(h)),
            history_max_len(*old(h)),
            history_ignores_dups(*old(h)),
            line@,
        ),
        history_max_len(*final(h)) == history_max_len(*old(h)),
        history_ignores_dups(*final(h)) == history_ignores_dups(*old(h)),
        history_ignores_space(*final(h)) == history_ignores_space(*old(h)),
{
    let _ = rustyline::history::History::add(h, line);
}

/// Relies on rustyline's `FileHistory::clear`: removes every entry, keeps the
/// settings; it always returns `Ok`.
#[verifier::external_body]
fn clear_entries(h: &mut DefaultHistory)
    ensures
        history_entries(*final(h)) == Seq::<Seq<char>>::empty(),
        history_max_len(*final(h)) == history_max_len(*old(h)),
        history_ignores_dups(*final(h)) == history_ignores_dups(*old(h)),
        history_ignores_space(*final(h)) == history_ignores_space(*old(h)),
{
    let _ = rustyline::history::History::clear(h);
}

/// Relies on rustyline's `FileHistory::iter`: the entries, oldest first.
#[verifier::external_body]
fn entry_list(h: &DefaultHistory) -> (r: Vec<String>)
    ensures
        r@.len() == history_entries(*h).len(),
        forall|i: int| 0 <= i < r@.len() ==> #[trigger] r@[i]@ == history_entries(*h)[i],
{
    h.iter().cloned().collect()
}

proof fn lemma_added_valid(e: Seq<Seq<char>>, line: Seq<char>)
    requires
        valid_entries(e),
    ensures
        valid_entries(added(e, HISTSIZE as nat, true, line)),
{
    let r = added(e, HISTSIZE as nat, true, line);
    if line.len() > 0 && !(e.len() > 0 && e.last() == line) {
        if e.len() == HISTSIZE {
            assert forall|i: int, j: int| 0 <= i && j == i + 1 && j < r.len() implies #[trigger] r[i]
                != #[trigger] r[j] by {
                if j < r.len() - 1 {
                    assert(r[i] == e[i + 1] && r[j] == e[j + 1]);
                }
            }
        }
    }
}

/// A new, empty history with the shell's settings.
pub fn new_history() -> (r: DefaultHistory)
    ensures
        well_formed(r),
        history_entries(r) == Seq::<Seq<char>>::empty(),
{
    let mut h = default_history();
    set_max_len(&mut h, HISTSIZE);
    h
}

/// Bounds the history to its newest `HISTSIZE` entries.
pub fn trim_shell_history(h: &mut DefaultHistory)
    ensures
        history_entries(*final(h)) == newest(history_entries(*old(h)), HISTSIZE as nat),
        history_max_len(*final(h)) == HISTSIZE,
        history_ignores_dups(*final(h)) == history_ignores_dups(*old(h)),
        history_ignores_space(*final(h)) == history_ignores_space(*old(h)),
{
    set_max_len(h, HISTSIZE);
}

/// The entry that a submitted line contributes to the history, if any.
pub fn history_line(input: &str) -> (r: Option<String>)
    ensures
        r is Some <==> entry_of(input@) is Some,
        r is Some ==> r->0@ == entry_of(input@)->0,
{
    let chars = chars_of(input);
    let t = trim_chars(&chars);
    if t.len() == 0 || (chars.len() > 0 && chars[0] == ' ') {
        None
    } else {
        Some(string_of(&t))
    }
}

/// Records a submitted line: its trimmed text is appended unless it is empty,
/// the raw line begins with a space, or it repeats the newest entry; the
/// oldest entry leaves when the bound is reached.
pub fn accept(h: &mut DefaultHistory, input: &str)
    requires
        well_formed(*old(h)),
    ensures
        well_formed(*final(h)),
        history_entries(*final(h)) == accept_step(history_entries(*old(h)), input@),
        input@.len() > 0 && input@[0] == ' ' ==> history_entries(*final(h)) == history_entries(*old(h)),
{
    match history_line(input) {
        Some(t) => {
            proof {
                lemma_added_valid(history_entries(*h), t@);
            }
            add_entry(h, t.as_str());
            trim_shell_history(h);
        },
        None => {},
    }
}

/// Empties the history, keeping its settings.
pub fn clear_history(h: &mut DefaultHistory)
    requires
        well_formed(*old(h)),
    ensures
        well_formed(*final(h)),
        history_entries(*final(h)) == Seq::<Seq<char>>::empty(),
{
    clear_entries(h);
}

/// The entries, oldest first.
pub fn entries(h: &DefaultHistory) -> (r: Vec<String>)
    ensures
        r@.len() == history_entries(*h).len(),
        forall|i: int| 0 <= i < r@.len() ==> #[trigger] r@[i]@ == history_entries(*h)[i],
{
    entry_list(h)
}

/// The text to write to the history file: the newest `HISTFILESIZE` entries,
/// oldest first, each followed by a line feed. It replaces the whole file.
pub fn history_file_text(h: &DefaultHistory) -> (r: String)
    ensures
        r@ == file_text(newest(history_entries(*h), HISTFILESIZE as nat)),
{
    let all = entry_list(h);
    let ghost e = history_entries(*h);
    let total = all.len();
    let start: usize = if total > HISTFILESIZE {
        total - HISTFILESIZE
    } else {
        0
    };
    let ghost kept = newest(e, HISTFILESIZE as nat);
    assert(kept =~= e.subrange(start as int, total as int));
    let mut text: Vec<char> = Vec::new();
    let mut i: usize = start;
    while i < total
        invariant
            total == all@.len(),
            total == e.len(),
            start <= i <= total,
            forall|k: int| 0 <= k < total ==> #[trigger] all@[k]@ == e[k],
            text@ == file_text(e.subrange(start as int, i as int)),
        decreases total - i,
    {
        let line = chars_of(all[i].as_str());
        let mut j: usize = 0;
        let ghost before = text@;
        while j < line.len()
            invariant
                j <= line@.len(),
                text@ == before + line@.subrange(0, j as int),
            decreases line@.len() - j,
        {
            text.push(line[j]);
            assert(line@.subrange(0, j + 1) =~= line@.subrange(0, j as int).push(line@[j as int]));
            j += 1;
        }
        text.push('\n');
        let ghost next = e.subrange(start as int, i + 1);
        assert(next.drop_last() =~= e.subrange(start as int, i as int));
        assert(line@.subrange(0, line@.len() as int) =~= line@);
        assert(text@ =~= before + line@.push('\n'));
        i += 1;
    }
    string_of(&text)
}

/// Fills the history from a history file's text: each line in turn is
/// offered as an entry, under the same rules as a submitted line.
pub fn load_history_text(h: &mut DefaultHistory, text: &str)
    requires
        well_formed(*old(h)),
    ensures
        well_formed(*final(h)),
        history_entries(*final(h)) == added_all(history_entries(*old(h)), file_lines(text@)),
{
    let chars = chars_of(text);
    let lines = split_chars(&chars, Some('\n'));
    let ghost ls = views(lines@);
    let ghost e0 = history_entries(*h);
    let mut k: usize = 0;
    while k < lines.len()
        invariant
            ls == views(lines@),
            ls == file_lines(text@),
            k <= ls.len(),
            well_formed(*h),
            history_entries(*h) == added_all(e0, ls.subrange(0, k as int)),
        decreases ls.len() - k,
    {
        assert(ls.subrange(0, k + 1).drop_last() =~= ls.subrange(0, k as int));
        assert(lines@[k as int]@ == ls[k as int]);
        let line = string_of(&lines[k]);
        proof {
            lemma_added_valid(history_entries(*h), line@);
        }
        add_entry(h, line.as_str());
        k += 1;
    }
    assert(ls.subrange(0, ls.len() as int) =~= ls);
}


/// What the `history` builtin was asked for.
#[derive(PartialEq, Eq, Structural, Clone, Copy, Debug)]
pub enum HistoryCommand {
    /// No argument: list the entries.
    List,
    /// `-c`: clear the entries and persist.
    Clear,
    /// `-w`: persist now.
    Write,
    /// Anything else: a usage error.
    Usage,
}

/// The request that the arguments of `history` make.
pub open spec fn history_command_of(args: Seq<Seq<char>>) -> HistoryCommand {
    if args.len() == 0 {
        HistoryCommand::List
    } else if args.len() == 1 && args[0] == "-c"@ {
        HistoryCommand::Clear
    } else if args.len() == 1 && args[0] == "-w"@ {
        HistoryCommand::Write
    } else {
        HistoryCommand::Usage
    }
}

/// Reads the arguments of the `history` builtin.
pub fn parse_history_args(args: &Vec<String>) -> (r: HistoryCommand)
    ensures
        r == history_command_of(args@.map_values(|a: String| a@)),
{
    let ghost v = args@.map_values(|a: String| a@);
    if args.len() == 0 {
        HistoryCommand::List
    } else if args.len() == 1 && same_text(args[0].as_str(), "-c") {
        HistoryCommand::Clear
    } else if args.len() == 1 && same_text(args[0].as_str(), "-w") {
        HistoryCommand::Write
    } else {
        proof {
            if args@.len() == 1 {
                assert(v[0] == args@[0]@);
            }
        }
        HistoryCommand::Usage
    }
}

/// What the `history` builtin leaves to its caller.
pub enum HistoryReply {
    /// The entries were cleared; the history file is to be rewritten.
    Cleared,
    /// The history file is to be rewritten.
    Written,
    /// The entries to print, each with its 1-based number.
    Listing(Vec<(usize, String)>),
    /// The arguments were not understood; nothing changed.
    Usage,
}

impl HistoryReply {
    /// Whether the caller must now write the history file.
    pub fn needs_persist(&self) -> (r: bool)
        ensures
            r == (self is Cleared || self is Written),
    {
        match self {
            HistoryReply::Cleared => true,
            HistoryReply::Written => true,
            _ => false,
        }
    }
}

/// The `history` builtin: `-c` clears, `-w` asks for a write, no argument
/// lists the newest `HISTSIZE` entries numbered from their position, anything
/// else is a usage error that changes nothing.
pub fn run_builtin_history(args: &Vec<String>, h: &mut DefaultHistory) -> (r: HistoryReply)
    requires
        well_formed(*old(h)),
    ensures
        well_formed(*final(h)),
        match history_command_of(args@.map_values(|a: String| a@)) {
            HistoryCommand::Clear => r is Cleared && history_entries(*final(h)) == Seq::<Seq<char>>::empty(),
            HistoryCommand::Write => r is Written && *final(h) == *old(h),
            HistoryCommand::Usage => r is Usage && *final(h) == *old(h),
            HistoryCommand::List => *final(h) == *old(h) && match r {
                HistoryReply::Listing(l) => {
                    let e = history_entries(*old(h));
                    let start = e.len() - newest(e, HISTSIZE as nat).len();
                    &&& l@.len() == newest(e, HISTSIZE as nat).len()
                    &&& forall|i: int| 0 <= i < l@.len() ==> {
                        &&& (#[trigger] l@[i]).0 == start + i + 1
                        &&& l@[i].1@ == e[start + i]
                    }
                },
                _ => false,
            },
        },
{
    match parse_history_args(args) {
        HistoryCommand::Clear => {
            clear_history(h);
            HistoryReply::Cleared
        },
        HistoryCommand::Write => HistoryReply::Written,
        HistoryCommand::Usage => HistoryReply::Usage,
        HistoryCommand::List => {
            let all = entry_list(h);
            let total = all.len();
            let start: usize = if total > HISTSIZE {
                total - HISTSIZE
            } else {
                0
            };
            let mut l: Vec<(usize, String)> = Vec::new();
            let mut i: usize = start;
            while i < total
                invariant
                    total == all@.len(),
                    total == history_entries(*h).len(),
                    start <= i <= total,
                    start == total - newest(history_entries(*h), HISTSIZE as nat).len(),
                    forall|k: int| 0 <= k < total ==> #[trigger] all@[k]@ == history_entries(*h)[k],
                    l@.len() == i - start,
                    forall|k: int| 0 <= k < l@.len() ==> {
                        &&& (#[trigger] l@[k]).0 == start + k + 1
                        &&& l@[k].1@ == history_entries(*h)[start + k]
                    },
                decreases total - i,
            {
                l.push((i + 1, all[i].clone()));
                i += 1;
            }
            HistoryReply::Listing(l)
        },
    }
}

} // verus!

verus! {

proof fn lemma_added_all_newest(lines: Seq<Seq<char>>)
    requires
        forall|i: int| 0 <= i < lines.len() ==> #[trigger] lines[i].len() > 0,
        no_repeats(lines),
    ensures
        added_all(Seq::empty(), lines) == newest(lines, HISTSIZE as nat),
    decreases lines.len(),
{
    if lines.len() > 0 {
        let n = lines.len() as int;
        let p = lines.drop_last();
        let x = lines.last();
        assert forall|i: int| 0 <= i < p.len() implies #[trigger] p[i].len() > 0 by {
            assert(p[i] == lines[i]);
        }
        assert forall|i: int, j: int| 0 <= i && j == i + 1 && j < p.len() implies #[trigger] p[i]
            != #[trigger] p[j] by {
            assert(p[i] == lines[i] && p[j] == lines[j]);
        }
        lemma_added_all_newest(p);
        let q = newest(p, HISTSIZE as nat);
        assert(added_all(Seq::empty(), lines) == added(q, HISTSIZE as nat, true, x));
        assert(x.len() > 0);
        if q.len() > 0 {
            assert(q.last() == p.last());
            assert(p.last() == lines[n - 2]);
            assert(lines[n - 2] != lines[n - 1]);
        }
        if p.len() >= HISTSIZE {
            assert(q.len() == HISTSIZE);
            assert(added(q, HISTSIZE as nat, true, x) == q.drop_first().push(x));
            assert forall|i: int| 0 <= i < HISTSIZE implies #[trigger] q.drop_first().push(x)[i]
                == lines.subrange(n - HISTSIZE, n)[i] by {
                if i < HISTSIZE - 1 {
                    assert(q.drop_first().push(x)[i] == q[i + 1]);
                    assert(q[i + 1] == p[p.len() - HISTSIZE + i + 1]);
                }
            }
            assert(q.drop_first().push(x) =~= lines.subrange(n - HISTSIZE, n));
        } else {
            assert(q == p);
            assert(added(q, HISTSIZE as nat, true, x) == p.push(x));
            assert(p.push(x) =~= lines);
        }
    }
}

/// The in-memory bound: offering any sequence of non-empty lines, no two in a
/// row equal, to an empty history leaves exactly the newest `HISTSIZE` of
/// them, oldest first.
pub proof fn lemma_history_keeps_newest(lines: Seq<Seq<char>>)
    requires
        forall|i: int| 0 <= i < lines.len() ==> #[trigger] lines[i].len() > 0,
        no_repeats(lines),
    ensures
        added_all(Seq::empty(), lines).len() <= HISTSIZE,
        lines.len() > HISTSIZE ==> added_all(Seq::empty(), lines) == lines.subrange(
            lines.len() - HISTSIZE,
            lines.len() as int,
        ),
        lines.len() <= HISTSIZE ==> added_all(Seq::empty(), lines) == lines,
{
    lemma_added_all_newest(lines);
}

proof fn lemma_file_lines(e: Seq<Seq<char>>)
    requires
        forall|i: int, j: int| 0 <= i < e.len() && 0 <= j < e[i].len() ==> #[trigger] e[i][j] != '\n',
    ensures
        file_lines(file_text(e)) == e.push(Seq::<char>::empty()),
    decreases e.len(),
{
    if e.len() == 0 {
        assert(split_by(Seq::empty(), Some('\n')) =~= seq![Seq::<char>::empty()]);
        assert(e.push(Seq::<char>::empty()) =~= seq![Seq::<char>::empty()]);
    } else {
        let p = e.drop_last();
        assert forall|i: int, j: int| 0 <= i < p.len() && 0 <= j < p[i].len() implies #[trigger] p[i][j] != '\n' by {
            assert(p[i] == e[i]);
        }
        lemma_file_lines(p);
        let s = file_text(p);
        let t = e.last();
        assert(forall|j: int| 0 <= j < t.len() ==> t[j] == e[e.len() - 1][j]);
        crate::tokenize::lemma_split_append_plain(s, t, '\n');
        let w = s + t.push('\n');
        assert(w.drop_last() =~= s + t);
        assert(w == file_text(e));
        assert(Seq::<char>::empty() + t =~= t);
        assert(file_lines(w) =~= e.push(Seq::<char>::empty()));
    }
}

/// Persisting and loading: the text written for a history, read back into a
/// fresh history, yields the same entries in the same order. This holds for
/// every history the shell can hold whose entries have no line feed inside.
pub proof fn lemma_persist_load_round_trip(e: Seq<Seq<char>>)
    requires
        valid_entries(e),
        forall|i: int, j: int| 0 <= i < e.len() && 0 <= j < e[i].len() ==> #[trigger] e[i][j] != '\n',
    ensures
        added_all(Seq::empty(), file_lines(file_text(newest(e, HISTFILESIZE as nat)))) == newest(
            e,
            HISTFILESIZE as nat,
        ),
        newest(e, HISTFILESIZE as nat) == e,
{
    lemma_file_lines(e);
    let ls = e.push(Seq::<char>::empty());
    assert(ls.drop_last() =~= e);
    lemma_added_all_newest(e);
}

/// Clearing and persisting: a cleared history writes a file from which a
/// fresh history loads no entry at all.
pub proof fn lemma_cleared_loads_empty(h: DefaultHistory)
    requires
        history_entries(h) == Seq::<Seq<char>>::empty(),
    ensures
        added_all(
            Seq::empty(),
            file_lines(file_text(newest(history_entries(h), HISTFILESIZE as nat))),
        ) == Seq::<Seq<char>>::empty(),
{
    let e = Seq::<Seq<char>>::empty();
    assert(newest(e, HISTFILESIZE as nat) == e);
    assert(file_text(e) == Seq::<char>::empty());
    lemma_file_lines(e);
    let ls = e.push(Seq::<char>::empty());
    assert(ls.drop_last() =~= e);
    assert(added_all(e, ls.drop_last()) == e);
    assert(added_all(e, ls) == added(e, HISTSIZE as nat, true, Seq::<char>::empty()));
}

proof fn lemma_accepted_all_is_added_all(inputs: Seq<Seq<char>>)
    requires
        forall|i: int| 0 <= i < inputs.len() ==> #[trigger] entry_of(inputs[i]) is Some,
    ensures
        accepted_all(Seq::empty(), inputs) == added_all(Seq::empty(), entries_of(inputs)),
    decreases inputs.len(),
{
    if inputs.len() > 0 {
        let p = inputs.drop_last();
        assert forall|i: int| 0 <= i < p.len() implies #[trigger] entry_of(p[i]) is Some by {
            assert(p[i] == inputs[i]);
        }
        lemma_accepted_all_is_added_all(p);
        assert(entries_of(inputs).drop_last() =~= entries_of(p));
        assert(entry_of(inputs.last()) is Some);
    }
}

/// The in-memory bound over submitted lines: accepting, one by one on an
/// empty history, inputs that each contribute an entry, no two of those
/// entries in a row equal, leaves exactly the newest `HISTSIZE` entries,
/// oldest first, and never more than `HISTSIZE` after any of them.
pub proof fn lemma_accepting_keeps_newest(inputs: Seq<Seq<char>>)
    requires
        forall|i: int| 0 <= i < inputs.len() ==> #[trigger] entry_of(inputs[i]) is Some,
        no_repeats(entries_of(inputs)),
    ensures
        forall|k: int| 0 <= k <= inputs.len() ==> #[trigger] accepted_all(
            Seq::empty(),
            inputs.subrange(0, k),
        ).len() <= HISTSIZE,
        inputs.len() > HISTSIZE ==> accepted_all(Seq::empty(), inputs) == entries_of(inputs).subrange(
            inputs.len() - HISTSIZE,
            inputs.len() as int,
        ),
        inputs.len() <= HISTSIZE ==> accepted_all(Seq::empty(), inputs) == entries_of(inputs),
{
    let ts = entries_of(inputs);
    assert forall|i: int| 0 <= i < ts.len() implies #[trigger] ts[i].len() > 0 by {
        assert(entry_of(inputs[i]) is Some);
    }
    lemma_accepted_all_is_added_all(inputs);
    lemma_added_all_newest(ts);
    assert forall|k: int| 0 <= k <= inputs.len() implies #[trigger] accepted_all(
        Seq::empty(),
        inputs.subrange(0, k),
    ).len() <= HISTSIZE by {
        let q = inputs.subrange(0, k);
        assert forall|i: int| 0 <= i < q.len() implies #[trigger] entry_of(q[i]) is Some by {
            assert(q[i] == inputs[i]);
        }
        lemma_accepted_all_is_added_all(q);
        let tq = entries_of(q);
        assert(tq =~= ts.subrange(0, k));
        assert forall|i: int| 0 <= i < tq.len() implies #[trigger] tq[i].len() > 0 by {
            assert(tq[i] == ts[i]);
        }
        assert forall|i: int, j: int| 0 <= i && j == i + 1 && j < tq.len() implies #[trigger] tq[i]
            != #[trigger] tq[j] by {
            assert(tq[i] == ts[i] && tq[j] == ts[j]);
        }
        lemma_added_all_newest(tq);
    }
}

} // verus!
