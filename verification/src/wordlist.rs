//! Turning raw wordlist text into candidates: the text is split at
//! newlines, each line is trimmed of surrounding whitespace, and empty
//! lines are dropped, so that every surviving entry satisfies the
//! candidate invariant.

use vstd::prelude::*;
use vstd::string::StrSliceExecFns;
use vstd::string::StringExecFns;
use crate::model::Candidate;
use crate::model::candidate_ok;

verus! {

/// The whitespace stripped from both ends of a wordlist line.
pub open spec fn is_space(c: char) -> bool {
    c == ' ' || c == '\t' || c == '\r' || c == '\n'
}

/// `s` with its leading whitespace removed.
pub open spec fn spec_trim_front(s: Seq<char>) -> Seq<char>
    decreases s.len(),
{
    if s.len() > 0 && is_space(s[0]) {
        spec_trim_front(s.drop_first())
    } else {
        s
    }
}

/// `s` with its trailing whitespace removed.
pub open spec fn spec_trim_back(s: Seq<char>) -> Seq<char>
    decreases s.len(),
{
    if s.len() > 0 && is_space(s.last()) {
        spec_trim_back(s.drop_last())
    } else {
        s
    }
}

/// `s` with whitespace removed from both ends.
pub open spec fn spec_trim(s: Seq<char>) -> Seq<char> {
    spec_trim_back(spec_trim_front(s))
}

/// The trimmed line `cur`, kept only when something remains of it.
pub open spec fn spec_kept_line(cur: Seq<char>) -> Seq<Seq<char>> {
    if spec_trim(cur).len() > 0 {
        seq![spec_trim(cur)]
    } else {
        Seq::empty()
    }
}

/// The candidates found in `s` when the line read so far is `cur`:
/// lines are cut at `'\n'`, trimmed, and dropped when empty.
pub open spec fn spec_collect(s: Seq<char>, cur: Seq<char>) -> Seq<Seq<char>>
    decreases s.len(),
{
    if s.len() == 0 {
        spec_kept_line(cur)
    } else if s[0] == '\n' {
        spec_kept_line(cur) + spec_collect(s.drop_first(), Seq::empty())
    } else {
        spec_collect(s.drop_first(), cur.push(s[0]))
    }
}

/// The candidate texts of a whole wordlist: its trimmed non-empty
/// lines, in order.
pub open spec fn spec_wordlist(s: Seq<char>) -> Seq<Seq<char>> {
    spec_collect(s, Seq::empty())
}

/// When the first `a` characters of `s` are whitespace and the one at
/// `a`, if any, is not, trimming the front keeps exactly the rest.
proof fn lemma_trim_front_at(s: Seq<char>, a: int)
    requires
        0 <= a <= s.len(),
        forall|j: int| 0 <= j < a ==> is_space(#[trigger] s[j]),
        a < s.len() ==> !is_space(s[a]),
    ensures
        spec_trim_front(s) == s.subrange(a, s.len() as int),
    decreases s.len(),
{
    if s.len() > 0 && is_space(s[0]) {
        assert(a > 0);
        lemma_trim_front_at(s.drop_first(), a - 1);
        assert(s.drop_first().subrange(a - 1, s.drop_first().len() as int) =~= s.subrange(
            a,
            s.len() as int,
        ));
    } else {
        assert(a == 0) by {
            if a > 0 {
                assert(is_space(s[0]));
            }
        }
        assert(s.subrange(0, s.len() as int) =~= s);
    }
}

/// When every character of `s` from `b` on is whitespace and the one
/// just before `b`, if any, is not, trimming the back keeps exactly the
/// first `b` characters.
proof fn lemma_trim_back_at(s: Seq<char>, b: int)
    requires
        0 <= b <= s.len(),
        forall|j: int| b <= j < s.len() ==> is_space(#[trigger] s[j]),
        b > 0 ==> !is_space(s[b - 1]),
    ensures
        spec_trim_back(s) == s.subrange(0, b),
    decreases s.len(),
{
    if s.len() > 0 && is_space(s.last()) {
        assert(b < s.len());
        lemma_trim_back_at(s.drop_last(), b);
        assert(s.drop_last().subrange(0, b) =~= s.subrange(0, b));
    } else {
        assert(b == s.len()) by {
            if b < s.len() {
                assert(is_space(s[s.len() - 1]));
            }
        }
        assert(s.subrange(0, b) =~= s);
    }
}

/// Trims the characters `lo..hi` of `s`, returning them as an owned
/// string.
fn trim_range(s: &str, lo: usize, hi: usize) -> (r: String)
    requires
        lo <= hi <= s@.len(),
    ensures
        r@ == spec_trim(s@.subrange(lo as int, hi as int)),
{
    let ghost sub = s@.subrange(lo as int, hi as int);
    let mut a: usize = lo;
    while a < hi && is_space_exec(s.get_char(a))
        invariant
            lo <= a <= hi <= s@.len(),
            forall|j: int| lo <= j < a ==> is_space(#[trigger] s@[j]),
        decreases hi - a,
    {
        a += 1;
    }
    if a == hi {
        proof {
            lemma_trim_front_at(sub, (hi - lo) as int);
            assert(spec_trim_front(sub) =~= Seq::<char>::empty());
            assert(spec_trim(sub) =~= Seq::<char>::empty());
        }
        return String::new();
    }
    let mut b: usize = hi;
    while b > a && is_space_exec(s.get_char(b - 1))
        invariant
            lo <= a <= b <= hi <= s@.len(),
            forall|j: int| b <= j < hi ==> is_space(#[trigger] s@[j]),
        decreases b,
    {
        b -= 1;
    }
    proof {
        assert(!is_space(s@[a as int]));
        assert(b > a) by {
            if b == a {
                assert(is_space(s@[a as int]));
            }
        }
        assert(!is_space(s@[b - 1]));
        lemma_trim_front_at(sub, a - lo);
        let t = sub.subrange(a - lo, sub.len() as int);
        lemma_trim_back_at(t, b - a);
        assert(t.subrange(0, b - a) =~= s@.subrange(a as int, b as int));
    }
    let kept = s.substring_char(a, b);
    kept.to_owned()
}

/// Executable test for [`is_space`].
fn is_space_exec(c: char) -> (r: bool)
    ensures
        r == is_space(c),
{
    c == ' ' || c == '\t' || c == '\r' || c == '\n'
}

/// Splits raw wordlist text into candidates: one per line, trimmed,
/// with empty lines dropped.  Every entry handed back is a well-formed
/// candidate, and together they are exactly [`spec_wordlist`] of the
/// text.
pub fn parse_wordlist(contents: &str) -> (r: Vec<Candidate>)
    ensures
        r@.map_values(|c: Candidate| c@) == spec_wordlist(contents@),
        forall|i: int| 0 <= i < r@.len() ==> (#[trigger] r@[i]).wf(),
{
    let n = contents.unicode_len();
    let mut result: Vec<Candidate> = Vec::new();
    let mut line_start: usize = 0;
    let mut i: usize = 0;
    proof {
        assert(contents@.subrange(0, n as int) =~= contents@);
        assert(contents@.subrange(0, 0) =~= Seq::<char>::empty());
        assert(result@.map_values(|c: Candidate| c@) =~= Seq::<Seq<char>>::empty());
        assert(result@.map_values(|c: Candidate| c@) + spec_collect(contents@, Seq::empty())
            =~= spec_collect(contents@, Seq::empty()));
    }
    while i < n
        invariant
            n == contents@.len(),
            0 <= line_start <= i <= n,
            forall|j: int| line_start <= j < i ==> contents@[j] != '\n',
            spec_wordlist(contents@) == result@.map_values(|c: Candidate| c@) + spec_collect(
                contents@.subrange(i as int, n as int),
                contents@.subrange(line_start as int, i as int),
            ),
            forall|k: int| 0 <= k < result@.len() ==> (#[trigger] result@[k]).wf(),
        decreases n - i,
    {
        let ghost rest = contents@.subrange(i as int, n as int);
        let ghost cur = contents@.subrange(line_start as int, i as int);
        let c = contents.get_char(i);
        if c == '\n' {
            proof {
                assert(rest[0] == '\n');
                assert(rest.drop_first() =~= contents@.subrange(i + 1, n as int));
                assert(spec_collect(rest, cur) == spec_kept_line(cur) + spec_collect(
                    contents@.subrange(i + 1, n as int),
                    Seq::empty(),
                ));
            }
            push_kept(&mut result, contents, line_start, i);
            proof {
                assert(contents@.subrange((i + 1) as int, (i + 1) as int) =~= Seq::<
                    char,
                >::empty());
            }
            line_start = i + 1;
        } else {
            proof {
                assert(rest[0] == c);
                assert(rest.drop_first() =~= contents@.subrange(i + 1, n as int));
                assert(cur.push(c) =~= contents@.subrange(line_start as int, i + 1));
                assert(spec_collect(rest, cur) == spec_collect(
                    contents@.subrange(i + 1, n as int),
                    contents@.subrange(line_start as int, i + 1),
                ));
            }
        }
        i += 1;
    }
    proof {
        assert(contents@.subrange(n as int, n as int) =~= Seq::<char>::empty());
    }
    push_kept(&mut result, contents, line_start, n);
    result
}

/// Trims the line `lo..hi` of `contents` and appends it as a candidate
/// when something remains of it.
fn push_kept(result: &mut Vec<Candidate>, contents: &str, lo: usize, hi: usize)
    requires
        lo <= hi <= contents@.len(),
        forall|j: int| lo <= j < hi ==> contents@[j] != '\n',
        forall|k: int| 0 <= k < old(result)@.len() ==> (#[trigger] old(result)@[k]).wf(),
    ensures
        final(result)@.map_values(|c: Candidate| c@) == old(result)@.map_values(
            |c: Candidate| c@,
        ) + spec_kept_line(contents@.subrange(lo as int, hi as int)),
        forall|k: int| 0 <= k < final(result)@.len() ==> (#[trigger] final(result)@[k]).wf(),
{
    let ghost cur = contents@.subrange(lo as int, hi as int);
    let t = trim_range(contents, lo, hi);
    proof {
        lemma_trim_in_range(cur);
        assert forall|k: int| 0 <= k < t@.len() implies t@[k] != '\n' by {
            assert(cur.contains(t@[k]));
            let m = choose|m: int| 0 <= m < cur.len() && cur[m] == t@[k];
            assert(contents@[lo + m] != '\n');
        }
    }
    if t.as_str().unicode_len() > 0 {
        assert(candidate_ok(t@));
        if let Some(cand) = Candidate::new(t) {
            result.push(cand);
            proof {
                assert(result@.map_values(|c: Candidate| c@) =~= old(result)@.map_values(
                    |c: Candidate| c@,
                ) + spec_kept_line(cur));
            }
        } else {
            proof {
                assert(false);
            }
        }
    } else {
        proof {
            assert(result@.map_values(|c: Candidate| c@) =~= old(result)@.map_values(
                |c: Candidate| c@,
            ) + spec_kept_line(cur));
        }
    }
}

/// Every character of a trimmed sequence already stood in the original
/// one.
proof fn lemma_trim_in_range(s: Seq<char>)
    ensures
        forall|k: int|
            0 <= k < spec_trim(s).len() ==> s.contains(#[trigger] spec_trim(s)[k]),
{
    lemma_trim_front_in_range(s);
    let t = spec_trim_front(s);
    lemma_trim_back_in_range(t);
    assert forall|k: int| 0 <= k < spec_trim(s).len() implies s.contains(
        #[trigger] spec_trim(s)[k],
    ) by {
        assert(t.contains(spec_trim(s)[k]));
        let m = choose|m: int| 0 <= m < t.len() && t[m] == spec_trim(s)[k];
        assert(s.contains(t[m]));
    }
}

/// Every character surviving a front trim stood in the original
/// sequence.
proof fn lemma_trim_front_in_range(s: Seq<char>)
    ensures
        forall|k: int|
            0 <= k < spec_trim_front(s).len() ==> s.contains(#[trigger] spec_trim_front(s)[k]),
    decreases s.len(),
{
    if s.len() > 0 && is_space(s[0]) {
        lemma_trim_front_in_range(s.drop_first());
        assert forall|k: int| 0 <= k < spec_trim_front(s).len() implies s.contains(
            #[trigger] spec_trim_front(s)[k],
        ) by {
            assert(spec_trim_front(s) == spec_trim_front(s.drop_first()));
            assert(s.drop_first().contains(spec_trim_front(s.drop_first())[k]));
            let m = choose|m: int|
                0 <= m < s.drop_first().len() && s.drop_first()[m] == spec_trim_front(s)[k];
            assert(s[m + 1] == spec_trim_front(s)[k]);
        }
    } else {
        assert forall|k: int| 0 <= k < spec_trim_front(s).len() implies s.contains(
            #[trigger] spec_trim_front(s)[k],
        ) by {
            assert(s[k] == spec_trim_front(s)[k]);
        }
    }
}

/// Every character surviving a back trim stood in the original
/// sequence.
proof fn lemma_trim_back_in_range(s: Seq<char>)
    ensures
        forall|k: int|
            0 <= k < spec_trim_back(s).len() ==> s.contains(#[trigger] spec_trim_back(s)[k]),
    decreases s.len(),
{
    if s.len() > 0 && is_space(s.last()) {
        lemma_trim_back_in_range(s.drop_last());
        assert forall|k: int| 0 <= k < spec_trim_back(s).len() implies s.contains(
            #[trigger] spec_trim_back(s)[k],
        ) by {
            assert(spec_trim_back(s) == spec_trim_back(s.drop_last()));
            assert(s.drop_last().contains(spec_trim_back(s.drop_last())[k]));
            let m = choose|m: int|
                0 <= m < s.drop_last().len() && s.drop_last()[m] == spec_trim_back(s)[k];
            assert(s[m] == spec_trim_back(s)[k]);
        }
    } else {
        assert forall|k: int| 0 <= k < spec_trim_back(s).len() implies s.contains(
            #[trigger] spec_trim_back(s)[k],
        ) by {
            assert(s[k] == spec_trim_back(s)[k]);
        }
    }
}

} // verus!
