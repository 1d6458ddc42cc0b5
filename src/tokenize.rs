//! Splitting one input line into pipeline segments, and each segment into a
//! command name and its arguments. No quoting and no escaping exist: the pipe
//! character always separates segments and whitespace always separates words.
use crate::text::{chars_of, is_white, string_of, white};
use vstd::prelude::*;

verus! {

/// Separator test: the given character, or whitespace where none is given.
pub open spec fn is_sep(sep: Option<char>, c: char) -> bool {
    match sep {
        Some(x) => c == x,
        None => white(c),
    }
}

/// The pieces of `s` between separators, in order; `k` separators give `k + 1`
/// pieces, some of them possibly empty.
pub open spec fn split_by(s: Seq<char>, sep: Option<char>) -> Seq<Seq<char>>
    decreases s.len(),
{
    if s.len() == 0 {
        seq![Seq::empty()]
    } else {
        let p = split_by(s.drop_last(), sep);
        if is_sep(sep, s.last()) {
            p.push(Seq::empty())
        } else {
            p.update(p.len() - 1, p.last().push(s.last()))
        }
    }
}

/// The non-empty members of `p`, in order.
pub open spec fn non_empty(p: Seq<Seq<char>>) -> Seq<Seq<char>>
    decreases p.len(),
{
    if p.len() == 0 {
        p
    } else if p.last().len() == 0 {
        non_empty(p.drop_last())
    } else {
        non_empty(p.drop_last()).push(p.last())
    }
}

/// The whitespace-separated words of `s`.
pub open spec fn words(s: Seq<char>) -> Seq<Seq<char>> {
    non_empty(split_by(s, None))
}

/// The raw segment texts of a line: its pieces between pipe characters.
pub open spec fn pipe_pieces(line: Seq<char>) -> Seq<Seq<char>> {
    split_by(line, Some('|'))
}

/// Command name of a segment text: its first word, or empty where it has none.
pub open spec fn command_of(piece: Seq<char>) -> Seq<char> {
    if words(piece).len() > 0 {
        words(piece)[0]
    } else {
        Seq::empty()
    }
}

/// Arguments of a segment text: every word after the first.
pub open spec fn args_of(piece: Seq<char>) -> Seq<Seq<char>> {
    if words(piece).len() > 0 {
        words(piece).drop_first()
    } else {
        Seq::empty()
    }
}

/// Splitting always yields at least one piece.
pub proof fn lemma_split_nonempty(s: Seq<char>, sep: Option<char>)
    ensures
        split_by(s, sep).len() >= 1,
    decreases s.len(),
{
    if s.len() > 0 {
        lemma_split_nonempty(s.drop_last(), sep);
    }
}

/// One pipeline segment: a command name and its ordered arguments. An empty
/// command marks a hole in the pipeline (two pipes with nothing between).
pub struct Segment {
    pub command: String,
    pub args: Vec<String>,
}

impl Segment {
    /// The segment's command and arguments as character sequences.
    pub open spec fn describes(&self, piece: Seq<char>) -> bool {
        &&& self.command@ == command_of(piece)
        &&& self.args@.len() == args_of(piece).len()
        &&& forall|i: int| 0 <= i < self.args@.len() ==> #[trigger] self.args@[i]@ == args_of(piece)[i]
    }

    /// Whether this segment is a hole with no command.
    pub fn is_empty(&self) -> (r: bool)
        ensures
            r == (self.command@.len() == 0),
    {
        self.command.as_str().unicode_len() == 0
    }
}

/// The character sequences held by a sequence of vectors.
pub open spec fn views(v: Seq<Vec<char>>) -> Seq<Seq<char>> {
    v.map_values(|x: Vec<char>| x@)
}

/// Splits `v` at each separator character.
pub fn split_chars(v: &Vec<char>, sep: Option<char>) -> (r: Vec<Vec<char>>)
    ensures
        views(r@) == split_by(v@, sep),
{
    let mut done: Vec<Vec<char>> = Vec::new();
    let mut cur: Vec<char> = Vec::new();
    let mut i: usize = 0;
    while i < v.len()
        invariant
            i <= v@.len(),
            views(done@).push(cur@) == split_by(v@.subrange(0, i as int), sep),
        decreases v@.len() - i,
    {
        let c = v[i];
        let ghost pre = v@.subrange(0, i as int);
        assert(v@.subrange(0, i + 1).drop_last() =~= pre);
        proof {
            lemma_split_nonempty(pre, sep);
        }
        let at_sep = match sep {
            Some(x) => c == x,
            None => is_white(c),
        };
        if at_sep {
            let ghost d = views(done@);
            let ghost cv = cur@;
            done.push(cur);
            assert(views(done@) =~= d.push(cv)) by {
                assert(forall|j: int| 0 <= j < done@.len() ==> #[trigger] done@[j]@ == d.push(cv)[j]);
            }
            cur = Vec::new();
            assert(views(done@).push(cur@) =~= split_by(v@.subrange(0, i + 1), sep));
        } else {
            cur.push(c);
            assert(views(done@).push(cur@) =~= split_by(v@.subrange(0, i + 1), sep));
        }
        i += 1;
    }
    assert(v@.subrange(0, v@.len() as int) =~= v@);
    let ghost d = views(done@);
    let ghost cv = cur@;
    done.push(cur);
    assert(views(done@) =~= d.push(cv)) by {
        assert(forall|j: int| 0 <= j < done@.len() ==> #[trigger] done@[j]@ == d.push(cv)[j]);
    }
    done
}

/// The non-empty pieces of `v` between separators.
pub fn fields(v: &Vec<char>, sep: Option<char>) -> (r: Vec<Vec<char>>)
    ensures
        views(r@) == non_empty(split_by(v@, sep)),
{
    let pieces = split_chars(v, sep);
    let ghost f = views(pieces@);
    let mut r: Vec<Vec<char>> = Vec::new();
    let mut k: usize = 0;
    while k < pieces.len()
        invariant
            f == views(pieces@),
            f == split_by(v@, sep),
            k <= f.len(),
            views(r@) == non_empty(f.subrange(0, k as int)),
        decreases f.len() - k,
    {
        assert(f.subrange(0, k + 1).drop_last() =~= f.subrange(0, k as int));
        assert(f.subrange(0, k + 1).last() == f[k as int]);
        assert(pieces@[k as int]@ == f[k as int]);
        if pieces[k].len() > 0 {
            let ghost d = views(r@);
            r.push(pieces[k].clone());
            assert(views(r@) =~= d.push(f[k as int]));
        }
        k += 1;
    }
    assert(f.subrange(0, f.len() as int) =~= f);
    r
}

/// The whitespace-separated words of `piece`, as strings.
fn words_of(piece: &Vec<char>) -> (r: Vec<String>)
    ensures
        r@.len() == words(piece@).len(),
        forall|i: int| 0 <= i < r@.len() ==> #[trigger] r@[i]@ == words(piece@)[i],
{
    let fields = split_chars(piece, None);
    let ghost f = views(fields@);
    let mut r: Vec<String> = Vec::new();
    let mut k: usize = 0;
    while k < fields.len()
        invariant
            f == views(fields@),
            f == split_by(piece@, None),
            k <= f.len(),
            r@.len() == non_empty(f.subrange(0, k as int)).len(),
            forall|i: int|
                0 <= i < r@.len() ==> #[trigger] r@[i]@ == non_empty(f.subrange(0, k as int))[i],
        decreases f.len() - k,
    {
        assert(f.subrange(0, k + 1).drop_last() =~= f.subrange(0, k as int));
        assert(f.subrange(0, k + 1).last() == f[k as int]);
        assert(fields@[k as int]@ == f[k as int]);
        if fields[k].len() > 0 {
            let w = string_of(&fields[k]);
            r.push(w);
        }
        k += 1;
    }
    assert(f.subrange(0, f.len() as int) =~= f);
    r
}

/// Builds the segment for one raw segment text.
pub fn parse_segment(piece: &Vec<char>) -> (r: Segment)
    ensures
        r.describes(piece@),
{
    let mut ws = words_of(piece);
    if ws.len() == 0 {
        let s = Segment { command: String::new(), args: Vec::new() };
        return s;
    }
    let ghost w = ws@;
    let command = ws.remove(0);
    assert(ws@ =~= w.drop_first());
    Segment { command, args: ws }
}

/// Splits an input line into its pipeline: one segment per piece between pipe
/// characters, left to right, empty pieces included as holes.
pub fn tokenize(line: &str) -> (r: Vec<Segment>)
    ensures
        r@.len() == pipe_pieces(line@).len(),
        forall|i: int| 0 <= i < r@.len() ==> #[trigger] r@[i].describes(pipe_pieces(line@)[i]),
{
    let chars = chars_of(line);
    let pieces = split_chars(&chars, Some('|'));
    let ghost p = views(pieces@);
    let mut r: Vec<Segment> = Vec::new();
    let mut k: usize = 0;
    while k < pieces.len()
        invariant
            p == views(pieces@),
            p == pipe_pieces(line@),
            k <= p.len(),
            r@.len() == k,
            forall|i: int| 0 <= i < k ==> #[trigger] r@[i].describes(p[i]),
        decreases p.len() - k,
    {
        assert(pieces@[k as int]@ == p[k as int]);
        let s = parse_segment(&pieces[k]);
        r.push(s);
        k += 1;
    }
    r
}

} // verus!

verus! {

/// Whether `s` holds no pipe character.
pub open spec fn pipe_free(s: Seq<char>) -> bool {
    forall|i: int| 0 <= i < s.len() ==> s[i] != '|'
}

/// Appending text free of the separator `x` extends the last piece only.
pub proof fn lemma_split_append_plain(s: Seq<char>, t: Seq<char>, x: char)
    requires
        forall|i: int| 0 <= i < t.len() ==> t[i] != x,
    ensures
        split_by(s + t, Some(x)) == split_by(s, Some(x)).update(
            split_by(s, Some(x)).len() - 1,
            split_by(s, Some(x)).last() + t,
        ),
    decreases t.len(),
{
    lemma_split_nonempty(s, Some(x));
    let p = split_by(s, Some(x));
    if t.len() == 0 {
        assert(s + t =~= s);
        assert(p.last() + t =~= p.last());
        assert(p.update(p.len() - 1, p.last() + t) =~= p);
    } else {
        let t0 = t.drop_last();
        assert(forall|i: int| 0 <= i < t0.len() ==> t0[i] == t[i]);
        lemma_split_append_plain(s, t0, x);
        assert((s + t).drop_last() =~= s + t0);
        assert((s + t).last() == t.last());
        assert(p.last() + t0 + seq![t.last()] =~= p.last() + t);
        assert((p.last() + t0).push(t.last()) =~= p.last() + t);
        let q = p.update(p.len() - 1, p.last() + t0);
        assert(q.update(q.len() - 1, q.last().push(t.last())) =~= p.update(
            p.len() - 1,
            p.last() + t,
        ));
    }
}

/// A line without a pipe character is a pipeline of exactly one segment,
/// whose text is the whole line.
pub proof fn lemma_no_pipe_single_segment(line: Seq<char>)
    requires
        pipe_free(line),
    ensures
        pipe_pieces(line) == seq![line],
{
    lemma_split_append_plain(Seq::empty(), line, '|');
    assert(Seq::<char>::empty() + line =~= line);
    assert(split_by(Seq::empty(), Some('|')) =~= seq![Seq::<char>::empty()]);
    assert(Seq::<char>::empty() + line =~= line);
    assert(seq![Seq::<char>::empty()].update(0, Seq::<char>::empty() + line) =~= seq![line]);
}

/// A line `a|b|c`, where none of the three parts holds a pipe character, is a
/// pipeline of exactly three segments, in the textual order.
pub proof fn lemma_three_segments_in_order(a: Seq<char>, b: Seq<char>, c: Seq<char>)
    requires
        pipe_free(a),
        pipe_free(b),
        pipe_free(c),
    ensures
        pipe_pieces(a.push('|') + b.push('|') + c) == seq![a, b, c],
{
    lemma_no_pipe_single_segment(a);
    let s1 = a.push('|');
    assert(s1.drop_last() =~= a);
    assert(split_by(s1, Some('|')) =~= seq![a, Seq::empty()]);
    lemma_split_append_plain(s1, b, '|');
    assert(Seq::<char>::empty() + b =~= b);
    assert(split_by(s1 + b, Some('|')) =~= seq![a, b]);
    let s2 = (s1 + b).push('|');
    assert(s2.drop_last() =~= s1 + b);
    assert(split_by(s2, Some('|')) =~= seq![a, b, Seq::empty()]);
    lemma_split_append_plain(s2, c, '|');
    assert(Seq::<char>::empty() + c =~= c);
    assert(s2 + c =~= a.push('|') + b.push('|') + c);
    assert(split_by(s2 + c, Some('|')) =~= seq![a, b, c]);
}

} // verus!
