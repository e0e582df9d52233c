//! The grader output of a job: captured standard output split into lines,
//! cut to its last lines, and marked where the job failed.

use vstd::prelude::*;
use vstd::string::*;

verus! {

/// The lines of `s` from a point where the line read so far is `cur`: lines
/// end at `\n`, and a `\r` right before that `\n` is dropped; a last line
/// without `\n` is kept as it is, and an empty rest gives no line.
pub open spec fn lines_from(s: Seq<char>, cur: Seq<char>) -> Seq<Seq<char>>
    decreases s.len(),
{
    if s.len() == 0 {
        if cur.len() == 0 {
            Seq::<Seq<char>>::empty()
        } else {
            seq![cur]
        }
    } else if s[0] == '\n' {
        seq![strip_cr(cur)] + lines_from(s.drop_first(), Seq::<char>::empty())
    } else {
        lines_from(s.drop_first(), cur.push(s[0]))
    }
}

/// `line` without one trailing `\r`.
pub open spec fn strip_cr(line: Seq<char>) -> Seq<char> {
    if line.len() > 0 && line.last() == '\r' {
        line.drop_last()
    } else {
        line
    }
}

/// The lines of the text `s`.
pub open spec fn lines_of(s: Seq<char>) -> Seq<Seq<char>> {
    lines_from(s, Seq::<char>::empty())
}

/// The lines `ls`, each followed by `\n`.
pub open spec fn joined(ls: Seq<Seq<char>>) -> Seq<char>
    decreases ls.len(),
{
    if ls.len() == 0 {
        Seq::<char>::empty()
    } else {
        joined(ls.drop_last()) + ls.last() + seq!['\n']
    }
}

/// How many of `len` lines the window keeps: the last `n`, or all of them.
pub open spec fn kept(len: nat, n: Option<usize>) -> nat {
    match n {
        Some(n) => if n < len { n as nat } else { len },
        None => len,
    }
}

/// The last `n` lines of `ls` (all of them where `n` is `None`), each
/// followed by `\n`.
pub open spec fn window_of(ls: Seq<Seq<char>>, n: Option<usize>) -> Seq<char> {
    joined(ls.skip(ls.len() - kept(ls.len(), n)))
}

/// The text that marks a failed job, before its detail.
pub open spec fn failure_prefix() -> Seq<char> {
    seq!['e', 'r', 'r', 'o', 'r', ':', ' ']
}

/// The grader output recorded for a job whose command wrote `stdout`, and
/// failed with `failure` where that is `Some`.
pub open spec fn grader_output_of(stdout: Seq<char>, failure: Option<Seq<char>>, n: Option<usize>) -> Seq<char> {
    match failure {
        Some(d) => failure_prefix() + d + seq!['\n'] + window_of(lines_of(stdout), n),
        None => window_of(lines_of(stdout), n),
    }
}

proof fn lemma_lines_step(s: Seq<char>, start: int, k: int)
    requires
        0 <= start <= k < s.len(),
        s[k] != '\n',
    ensures
        lines_from(s.skip(k), s.subrange(start, k)) == lines_from(
            s.skip(k + 1),
            s.subrange(start, k + 1),
        ),
{
    assert(s.skip(k).drop_first() =~= s.skip(k + 1));
    assert(s.subrange(start, k).push(s[k]) =~= s.subrange(start, k + 1));
}

proof fn lemma_lines_break(s: Seq<char>, start: int, k: int)
    requires
        0 <= start <= k < s.len(),
        s[k] == '\n',
    ensures
        lines_from(s.skip(k), s.subrange(start, k)) == seq![strip_cr(s.subrange(start, k))]
            + lines_from(s.skip(k + 1), s.subrange(k + 1, k + 1)),
{
    assert(s.skip(k).drop_first() =~= s.skip(k + 1));
    assert(s.subrange(k + 1, k + 1) =~= Seq::<char>::empty());
}

/// Splits `text` into lines, as reading it line by line gives them.
pub fn split_lines(text: &str) -> (r: Vec<String>)
    ensures
        r@.map_values(|l: String| l@) == lines_of(text@),
{
    let ghost s = text@;
    let n: usize = text.unicode_len();
    let mut out: Vec<String> = Vec::new();
    let mut start: usize = 0;
    let mut k: usize = 0;
    let mut prev_cr = false;
    assert(s.skip(0) =~= s);
    assert(s.subrange(0, 0) =~= Seq::<char>::empty());
    assert(out@.map_values(|l: String| l@) + lines_of(s) =~= lines_of(s));
    for c in it: text.chars()
        invariant
            it.seq() == s,
            s == text@,
            n == s.len(),
            k == it.index(),
            start <= k <= s.len(),
            prev_cr == (k > start && s[k - 1] == '\r'),
            lines_of(s) == out@.map_values(|l: String| l@) + lines_from(
                s.skip(k as int),
                s.subrange(start as int, k as int),
            ),
    {
        assert(c == s[k as int]);
        let ghost before = out@.map_values(|l: String| l@);
        if c == '\n' {
            proof {
                lemma_lines_break(s, start as int, k as int);
            }
            let end: usize = if prev_cr { k - 1 } else { k };
            let line = String::from_str(text.substring_char(start, end));
            assert(line@ == strip_cr(s.subrange(start as int, k as int))) by {
                if prev_cr {
                    assert(s.subrange(start as int, k as int).drop_last() =~= s.subrange(
                        start as int,
                        end as int,
                    ));
                }
            }
            out.push(line);
            assert(out@.map_values(|l: String| l@) =~= before.push(line@));
            assert(before.push(line@) + lines_from(s.skip(k + 1), s.subrange(k + 1, k + 1))
                =~= before + (seq![line@] + lines_from(
                s.skip(k + 1),
                s.subrange(k + 1, k + 1),
            )));
            start = k + 1;
            prev_cr = false;
        } else {
            proof {
                lemma_lines_step(s, start as int, k as int);
            }
            prev_cr = c == '\r';
        }
        k = k + 1;
    }
    let ghost before = out@.map_values(|l: String| l@);
    assert(s.skip(k as int) =~= Seq::<char>::empty());
    if start < k {
        let line = String::from_str(text.substring_char(start, k));
        out.push(line);
        assert(out@.map_values(|l: String| l@) =~= before + seq![line@]);
    } else {
        assert(before + Seq::<Seq<char>>::empty() =~= before);
    }
    out
}

/// The last `n` lines of `lines` (all of them where `n` is `None`), each
/// followed by `\n`.
pub fn window(lines: &Vec<String>, n: Option<usize>) -> (r: String)
    ensures
        r@ == window_of(lines@.map_values(|l: String| l@), n),
{
    let ghost ls = lines@.map_values(|l: String| l@);
    let len = lines.len();
    let keep: usize = match n {
        Some(n) => if n < len { n } else { len },
        None => len,
    };
    let first = len - keep;
    let ghost tail = ls.skip(first as int);
    let nl = "\n";
    proof {
        reveal_strlit("\n");
    }
    let mut r = String::new();
    let mut i: usize = first;
    assert(tail.take(0) =~= Seq::<Seq<char>>::empty());
    while i < len
        invariant
            first <= i <= len,
            len == lines@.len(),
            ls == lines@.map_values(|l: String| l@),
            tail == ls.skip(first as int),
            nl@ == seq!['\n'],
            r@ == joined(tail.take(i - first)),
        decreases len - i,
    {
        r.append(lines[i].as_str());
        r.append(nl);
        proof {
            let t = tail.take(i + 1 - first);
            assert(t.drop_last() =~= tail.take(i - first));
            assert(t.last() == ls[i as int]);
        }
        i = i + 1;
    }
    assert(tail.take(len - first) =~= tail);
    r
}

/// The grader output recorded for a job: the last `n` lines of what its
/// command wrote (all of them where `n` is `None`), after a line that gives
/// the failure where the job failed.
pub fn grader_output(stdout: &str, failure: Option<String>, n: Option<usize>) -> (r: String)
    ensures
        r@ == grader_output_of(
            stdout@,
            match failure {
                Some(d) => Some(d@),
                None => None,
            },
            n,
        ),
{
    let lines = split_lines(stdout);
    let body = window(&lines, n);
    match failure {
        Some(d) => {
            let p = "error: ";
            let nl = "\n";
            proof {
                reveal_strlit("error: ");
                reveal_strlit("\n");
                assert(p@ =~= failure_prefix());
            }
            let r = String::from_str(p).concat(d.as_str()).concat(nl).concat(body.as_str());
            r
        },
        None => body,
    }
}

/// Keeping at least as many lines as there are keeps the output whole.
pub proof fn lemma_window_all(ls: Seq<Seq<char>>, n: usize)
    requires
        n >= ls.len(),
    ensures
        window_of(ls, Some(n)) == window_of(ls, None),
        window_of(ls, None) == joined(ls),
{
    assert(ls.skip(0) =~= ls);
}

/// Keeping no line leaves the output empty.
pub proof fn lemma_window_none(ls: Seq<Seq<char>>)
    ensures
        window_of(ls, Some(0)) == Seq::<char>::empty(),
{
    assert(ls.skip(ls.len() as int) =~= Seq::<Seq<char>>::empty());
}

} // verus!
