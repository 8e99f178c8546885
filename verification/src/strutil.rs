//! Verified string helpers: character-level equality and decimal rendering of
//! integers, shared by the cache, the rate limiter and the dispatcher.

use vstd::prelude::*;
use vstd::string::StrSliceExecFns;

verus! {

/// Character-by-character equality of two string slices.
pub fn str_eq(a: &str, b: &str) -> (r: bool)
    ensures
        r == (a@ == b@),
{
    let la = a.unicode_len();
    let lb = b.unicode_len();
    if la != lb {
        return false;
    }
    let mut i: usize = 0;
    while i < la
        invariant
            la == a@.len(),
            la == b@.len(),
            i <= la,
            forall|j: int| 0 <= j < i ==> a@[j] == b@[j],
        decreases la - i,
    {
        if a.get_char(i) != b.get_char(i) {
            return false;
        }
        i = i + 1;
    }
    proof {
        assert(a@ =~= b@);
    }
    true
}

/// ASCII whitespace: blank, tab, newline, carriage return.
pub open spec fn is_space(c: char) -> bool {
    c == ' ' || c == '\t' || c == '\n' || c == '\r'
}

/// The character for one decimal digit.
pub open spec fn dec_digit(d: nat) -> char {
    ((d + 48) as u8) as char
}

/// The decimal rendering of a natural number, most significant digit first.
pub open spec fn dec_str(n: nat) -> Seq<char>
    decreases n,
{
    if n < 10 {
        seq![dec_digit(n)]
    } else {
        dec_str(n / 10).push(dec_digit(n % 10))
    }
}

fn digit_str(d: u64) -> (r: &'static str)
    requires
        d < 10,
    ensures
        r@ == seq![dec_digit(d as nat)],
{
    proof {
        reveal_strlit("0");
        reveal_strlit("1");
        reveal_strlit("2");
        reveal_strlit("3");
        reveal_strlit("4");
        reveal_strlit("5");
        reveal_strlit("6");
        reveal_strlit("7");
        reveal_strlit("8");
        reveal_strlit("9");
    }
    match d {
        0 => "0",
        1 => "1",
        2 => "2",
        3 => "3",
        4 => "4",
        5 => "5",
        6 => "6",
        7 => "7",
        8 => "8",
        _ => "9",
    }
}

/// Renders an unsigned integer in decimal.
pub fn u64_to_string(n: u64) -> (r: String)
    ensures
        r@ == dec_str(n as nat),
    decreases n,
{
    if n < 10 {
        String::from_str(digit_str(n))
    } else {
        let mut s = u64_to_string(n / 10);
        s.append(digit_str(n % 10));
        s
    }
}

/// Leading whitespace dropped.
pub open spec fn trim_start_spec(s: Seq<char>) -> Seq<char>
    decreases s.len(),
{
    if s.len() > 0 && is_space(s[0]) {
        trim_start_spec(s.drop_first())
    } else {
        s
    }
}

/// Trailing whitespace dropped.
pub open spec fn trim_end_spec(s: Seq<char>) -> Seq<char>
    decreases s.len(),
{
    if s.len() > 0 && is_space(s.last()) {
        trim_end_spec(s.drop_last())
    } else {
        s
    }
}

/// Whitespace dropped from both ends.
pub open spec fn trim_spec(s: Seq<char>) -> Seq<char> {
    trim_end_spec(trim_start_spec(s))
}

/// The lines of a text: every newline splits, so a text of `k` newlines has
/// `k + 1` lines, the last one possibly empty.
pub open spec fn split_lines_spec(s: Seq<char>) -> Seq<Seq<char>>
    decreases s.len(),
{
    if s.len() == 0 {
        seq![Seq::empty()]
    } else if s[0] == '\n' {
        seq![Seq::empty()] + split_lines_spec(s.drop_first())
    } else {
        let rest = split_lines_spec(s.drop_first());
        seq![seq![s[0]] + rest[0]] + rest.drop_first()
    }
}

/// Whether a line survives sanitising: something is left after trimming,
/// and it is no comment.
pub open spec fn keep_line(l: Seq<char>) -> bool {
    trim_spec(l).len() > 0 && trim_spec(l)[0] != '#'
}

/// The surviving lines, each trimmed, in order.
pub open spec fn kept_lines(ls: Seq<Seq<char>>) -> Seq<Seq<char>>
    decreases ls.len(),
{
    if ls.len() == 0 {
        Seq::empty()
    } else {
        let rest = kept_lines(ls.drop_first());
        if keep_line(ls[0]) {
            seq![trim_spec(ls[0])] + rest
        } else {
            rest
        }
    }
}

/// The pieces joined over single blanks.
pub open spec fn join_space(ps: Seq<Seq<char>>) -> Seq<char>
    decreases ps.len(),
{
    if ps.len() == 0 {
        Seq::empty()
    } else if ps.len() == 1 {
        ps[0]
    } else {
        ps[0] + seq![' '] + join_space(ps.drop_first())
    }
}

/// A sanitised text: its lines trimmed, empty lines and `#` comment lines
/// dropped, the rest joined over single blanks.
pub open spec fn sanitize_spec(s: Seq<char>) -> Seq<char> {
    join_space(kept_lines(split_lines_spec(s)))
}

/// A text without newlines is one line.
proof fn lemma_split_no_newline(s: Seq<char>)
    requires
        forall|i: int| 0 <= i < s.len() ==> s[i] != '\n',
    ensures
        split_lines_spec(s) == seq![s],
    decreases s.len(),
{
    if s.len() == 0 {
        assert(s =~= Seq::<char>::empty());
        assert(seq![Seq::<char>::empty()] =~= seq![s]);
    } else {
        let rest = s.drop_first();
        assert(forall|i: int| 0 <= i < rest.len() ==> rest[i] == s[i + 1]);
        lemma_split_no_newline(rest);
        assert(seq![rest].drop_first() =~= Seq::empty());
        assert(seq![s[0]] + rest =~= s);
        assert(seq![seq![s[0]] + rest] + Seq::empty() =~= seq![s]);
    }
}

/// Splitting at the first newline.
proof fn lemma_split_at_newline(s: Seq<char>, j: int)
    requires
        0 <= j < s.len(),
        s[j] == '\n',
        forall|i: int| 0 <= i < j ==> s[i] != '\n',
    ensures
        split_lines_spec(s) == seq![s.take(j)] + split_lines_spec(s.skip(j + 1)),
    decreases j,
{
    if j == 0 {
        assert(s.take(0) =~= Seq::empty());
        assert(s.skip(1) =~= s.drop_first());
    } else {
        let rest = s.drop_first();
        assert(forall|i: int| 0 <= i < rest.len() ==> rest[i] == s[i + 1]);
        lemma_split_at_newline(rest, j - 1);
        let sub = split_lines_spec(rest);
        assert(sub == seq![rest.take(j - 1)] + split_lines_spec(rest.skip(j)));
        assert(sub[0] == rest.take(j - 1));
        assert(seq![s[0]] + rest.take(j - 1) =~= s.take(j));
        assert(sub.drop_first() =~= split_lines_spec(rest.skip(j)));
        assert(rest.skip(j) =~= s.skip(j + 1));
        assert(seq![seq![s[0]] + sub[0]] + sub.drop_first() =~= seq![s.take(j)]
            + split_lines_spec(s.skip(j + 1)));
    }
}

/// Keeping distributes over concatenation.
proof fn lemma_kept_append(a: Seq<Seq<char>>, b: Seq<Seq<char>>)
    ensures
        kept_lines(a + b) == kept_lines(a) + kept_lines(b),
    decreases a.len(),
{
    if a.len() == 0 {
        assert(a + b =~= b);
        assert(kept_lines(a) + kept_lines(b) =~= kept_lines(b));
    } else {
        assert((a + b).drop_first() =~= a.drop_first() + b);
        assert((a + b)[0] == a[0]);
        lemma_kept_append(a.drop_first(), b);
        if keep_line(a[0]) {
            assert(seq![trim_spec(a[0])] + (kept_lines(a.drop_first()) + kept_lines(b)) =~= (seq![
                trim_spec(a[0]),
            ] + kept_lines(a.drop_first())) + kept_lines(b));
        }
    }
}

/// Appending one piece to a join.
proof fn lemma_join_push(ps: Seq<Seq<char>>, p: Seq<char>)
    ensures
        join_space(ps.push(p)) == if ps.len() == 0 {
            p
        } else {
            join_space(ps) + seq![' '] + p
        },
    decreases ps.len(),
{
    let q = ps.push(p);
    if ps.len() == 0 {
        assert(q =~= seq![p]);
    } else {
        assert(q[0] == ps[0]);
        assert(q.drop_first() =~= ps.drop_first().push(p));
        lemma_join_push(ps.drop_first(), p);
        if ps.len() == 1 {
            assert(ps.drop_first().len() == 0);
            assert(join_space(q.drop_first()) == p);
        } else {
            assert(ps[0] + seq![' '] + (join_space(ps.drop_first()) + seq![' '] + p) =~= (ps[0]
                + seq![' '] + join_space(ps.drop_first())) + seq![' '] + p);
        }
    }
}

/// Trimming the front, by index: with `a` leading whitespace characters.
proof fn lemma_trim_start_at(l: Seq<char>, a: int)
    requires
        0 <= a <= l.len(),
        forall|i: int| 0 <= i < a ==> is_space(l[i]),
        a == l.len() || !is_space(l[a]),
    ensures
        trim_start_spec(l) == l.skip(a),
    decreases a,
{
    if a == 0 {
        assert(l.skip(0) =~= l);
    } else {
        let rest = l.drop_first();
        assert(forall|i: int| 0 <= i < rest.len() ==> rest[i] == l[i + 1]);
        lemma_trim_start_at(rest, a - 1);
        assert(rest.skip(a - 1) =~= l.skip(a));
    }
}

/// Trimming the back, by index: everything at or past `b` is whitespace.
proof fn lemma_trim_end_at(l: Seq<char>, b: int)
    requires
        0 <= b <= l.len(),
        forall|i: int| b <= i < l.len() ==> is_space(l[i]),
        b == 0 || !is_space(l[b - 1]),
    ensures
        trim_end_spec(l) == l.take(b),
    decreases l.len() - b,
{
    if b == l.len() {
        if l.len() > 0 && is_space(l.last()) {
            assert(b == l.len() && b <= l.len() - 1);
        }
        if b == 0 {
            assert(l.take(0) =~= l);
        } else {
            assert(!is_space(l.last()));
            assert(l.take(b) =~= l);
        }
    } else {
        assert(is_space(l.last()));
        let head = l.drop_last();
        assert(forall|i: int| 0 <= i < head.len() ==> head[i] == l[i]);
        lemma_trim_end_at(head, b);
        assert(head.take(b) =~= l.take(b));
    }
}

/// Trimming both ends, by index.
proof fn lemma_trim_at(l: Seq<char>, a: int, b: int)
    requires
        0 <= a <= b <= l.len(),
        forall|i: int| 0 <= i < a ==> is_space(l[i]),
        forall|i: int| b <= i < l.len() ==> is_space(l[i]),
        a < b ==> !is_space(l[a]) && !is_space(l[b - 1]),
        a == b ==> a == l.len(),
    ensures
        trim_spec(l) == l.subrange(a, b),
    decreases 0int,
{
    if a == b {
        lemma_trim_start_at(l, a);
        assert(l.skip(a) =~= Seq::empty());
        assert(trim_end_spec(Seq::<char>::empty()) =~= Seq::<char>::empty());
        assert(l.subrange(a, b) =~= Seq::empty());
    } else {
        lemma_trim_start_at(l, a);
        let m = l.skip(a);
        assert(forall|i: int| 0 <= i < m.len() ==> m[i] == l[i + a]);
        lemma_trim_end_at(m, b - a);
        assert(m.take(b - a) =~= l.subrange(a, b));
    }
}

/// Tests one character for ASCII whitespace.
fn is_space_char(c: char) -> (r: bool)
    ensures
        r == is_space(c),
{
    c == ' ' || c == '\t' || c == '\n' || c == '\r'
}

/// Sanitises a text: each line trimmed of surrounding whitespace, empty
/// lines and lines opening with `#` dropped, the rest joined over single
/// blanks.
pub(crate) fn sanitize_text(s: &str) -> (r: String)
    ensures
        r@ == sanitize_spec(s@),
{
    let n = s.unicode_len();
    let mut out = String::new();
    let mut wrote = false;
    let mut pos: usize = 0;
    let ghost mut done: Seq<Seq<char>> = Seq::empty();
    proof {
        assert(s@.skip(0) =~= s@);
        assert(Seq::<Seq<char>>::empty() + split_lines_spec(s@) =~= split_lines_spec(s@));
    }
    while pos < n
        invariant
            n == s@.len(),
            pos <= n,
            split_lines_spec(s@) == done + split_lines_spec(s@.skip(pos as int)),
            out@ == join_space(kept_lines(done)),
            wrote == (kept_lines(done).len() > 0),
        decreases n - pos,
    {
        let mut nl = pos;
        while nl < n && s.get_char(nl) != '\n'
            invariant
                n == s@.len(),
                pos <= nl <= n,
                forall|i: int| pos <= i < nl ==> s@[i] != '\n',
            decreases n - nl,
        {
            nl = nl + 1;
        }
        let ghost line = s@.subrange(pos as int, nl as int);
        let mut ts = pos;
        while ts < nl && is_space_char(s.get_char(ts))
            invariant
                n == s@.len(),
                nl <= n,
                pos <= ts <= nl,
                forall|i: int| pos <= i < ts ==> is_space(s@[i]),
            decreases nl - ts,
        {
            ts = ts + 1;
        }
        let mut te = nl;
        while te > ts && is_space_char(s.get_char(te - 1))
            invariant
                n == s@.len(),
                nl <= n,
                ts <= te <= nl,
                forall|i: int| te <= i < nl ==> is_space(s@[i]),
            decreases te,
        {
            te = te - 1;
        }
        proof {
            assert(forall|i: int| 0 <= i < line.len() ==> line[i] == s@[i + pos]);
            lemma_trim_at(line, ts - pos, te - pos);
            assert(line.subrange(ts - pos, te - pos) =~= s@.subrange(ts as int, te as int));
        }
        let keep = te > ts && s.get_char(ts) != '#';
        proof {
            assert(keep == keep_line(line));
        }
        let ghost done2 = done.push(line);
        proof {
            assert(done2 =~= done + seq![line]);
            lemma_kept_append(done, seq![line]);
            assert(seq![line].drop_first() =~= Seq::<Seq<char>>::empty());
            assert(kept_lines(Seq::<Seq<char>>::empty()) == Seq::<Seq<char>>::empty());
            if keep {
                assert(kept_lines(seq![line]) =~= seq![trim_spec(line)] + Seq::<Seq<char>>::empty());
                assert(kept_lines(seq![line]) =~= seq![trim_spec(line)]);
                assert(kept_lines(done2) =~= kept_lines(done).push(trim_spec(line)));
                lemma_join_push(kept_lines(done), trim_spec(line));
            } else {
                assert(kept_lines(seq![line]) =~= Seq::<Seq<char>>::empty());
                assert(kept_lines(done2) =~= kept_lines(done));
            }
        }
        if keep {
            if wrote {
                out.append(" ");
                proof {
                    reveal_strlit(" ");
                }
            }
            out.append(s.substring_char(ts, te));
            wrote = true;
            proof {
                reveal_strlit(" ");
                assert(" "@ =~= seq![' ']);
                if kept_lines(done).len() == 0 {
                    assert(out@ =~= trim_spec(line));
                } else {
                    assert(out@ =~= join_space(kept_lines(done)) + seq![' '] + trim_spec(line));
                }
            }
        }
        proof {
            done = done2;
            if nl < n {
                let tail = s@.skip(pos as int);
                assert(forall|i: int| 0 <= i < tail.len() ==> tail[i] == s@[i + pos]);
                lemma_split_at_newline(tail, nl - pos);
                assert(tail.take(nl - pos) =~= line);
                assert(tail.skip(nl - pos + 1) =~= s@.skip(nl + 1));
                assert(done + split_lines_spec(s@.skip(nl + 1)) =~= (done.drop_last() + seq![line])
                    + split_lines_spec(s@.skip(nl + 1)));
            } else {
                let tail = s@.skip(pos as int);
                assert(forall|i: int| 0 <= i < tail.len() ==> tail[i] == s@[i + pos]);
                lemma_split_no_newline(tail);
                assert(tail =~= line);
            }
        }
        if nl < n {
            proof {
                let prev = done.drop_last();
                assert(prev =~= done.subrange(0, done.len() - 1));
                assert(split_lines_spec(s@) == prev + split_lines_spec(s@.skip(pos as int)));
                assert(prev + (seq![line] + split_lines_spec(s@.skip(nl + 1))) =~= (prev + seq![
                    line,
                ]) + split_lines_spec(s@.skip(nl + 1)));
                assert(prev + seq![line] =~= done);
            }
            pos = nl + 1;
        } else {
            proof {
                let prev = done.drop_last();
                assert(split_lines_spec(s@) == prev + seq![line]);
                assert(prev + seq![line] =~= done);
                assert(split_lines_spec(s@) == done);
                assert(out@ == sanitize_spec(s@));
            }
            return out;
        }
    }
    proof {
        assert(s@.skip(n as int) =~= Seq::<char>::empty());
        assert(split_lines_spec(Seq::<char>::empty()) =~= seq![Seq::<char>::empty()]);
        lemma_kept_append(done, seq![Seq::<char>::empty()]);
        assert(trim_start_spec(Seq::<char>::empty()) =~= Seq::<char>::empty());
        assert(!keep_line(Seq::<char>::empty()));
        assert(seq![Seq::<char>::empty()].drop_first() =~= Seq::<Seq<char>>::empty());
        assert(kept_lines(seq![Seq::<char>::empty()]) =~= Seq::<Seq<char>>::empty());
        assert(kept_lines(done + seq![Seq::<char>::empty()]) =~= kept_lines(done));
        assert(split_lines_spec(s@) == done + seq![Seq::<char>::empty()]);
        assert(out@ == sanitize_spec(s@));
    }
    out
}

} // verus!
