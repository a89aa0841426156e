use vstd::prelude::*;
use crate::error::AppError;
use vstd::string::StrSliceExecFns;
use vstd::string::StringExecFns;
use std::collections::HashMap;

verus! {

broadcast use vstd::std_specs::hash::group_hash_axioms;

// ---------------------------------------------------------------------------
// The line model.
//
// A content string is a sequence of lines, each carrying its own terminator:
// the `'\n'` that ends it together with an immediately preceding `'\r'`, so
// both the LF and the CRLF convention survive a patch line by line; the last
// line's terminator is empty. `line_split` takes a string apart into
// (body, terminator) pairs and `join_split` puts them back together; the two
// are exact inverses, so a patch expressed over lines says exactly what
// happens to the whole string.
// ---------------------------------------------------------------------------
/// Index of the first `'\n'` in `s`, or `s.len()` when there is none.
pub open spec fn first_nl(s: Seq<char>) -> nat
    decreases s.len(),
{
    if s.len() == 0 {
        0
    } else if s[0] == '\n' {
        0
    } else {
        1 + first_nl(s.drop_first())
    }
}

/// A line body in the model: a character sequence free of `'\n'`.
pub open spec fn clean_line(l: Seq<char>) -> bool {
    forall|j: int| 0 <= j < l.len() ==> l[j] != '\n'
}

/// A line body that a patch may put into a content: free of `'\n'` and not
/// ending in `'\r'`, so it cannot merge with any terminator on a re-split.
pub open spec fn insertable_line(l: Seq<char>) -> bool {
    clean_line(l) && (l.len() > 0 ==> l[l.len() - 1] != '\r')
}

/// The body and terminator of every 1-indexed line of `s`: split at each
/// `'\n'`, a `'\r'` immediately before it belonging to the terminator.
pub open spec fn line_split(s: Seq<char>) -> Seq<(Seq<char>, Seq<char>)>
    decreases s.len(),
{
    if first_nl(s) < s.len() {
        let i = first_nl(s) as int;
        let b = if i >= 1 && s[i - 1] == '\r' {
            i - 1
        } else {
            i
        };
        seq![(s.subrange(0, b), s.subrange(b, i + 1))] + line_split(
            s.subrange(i + 1, s.len() as int),
        )
    } else {
        seq![(s, Seq::<char>::empty())]
    }
}

/// The 1-indexed line bodies of `s`, with their terminators stripped.
pub open spec fn lines_of(s: Seq<char>) -> Seq<Seq<char>> {
    line_split(s).map_values(|p: (Seq<char>, Seq<char>)| p.0)
}

/// The line terminators of `s`, in order; the last one is always empty.
pub open spec fn seps_of(s: Seq<char>) -> Seq<Seq<char>> {
    line_split(s).map_values(|p: (Seq<char>, Seq<char>)| p.1)
}

/// Bodies and terminators interleaved back into one string.
pub open spec fn join_split(ps: Seq<(Seq<char>, Seq<char>)>) -> Seq<char>
    decreases ps.len(),
{
    if ps.len() == 0 {
        Seq::empty()
    } else {
        ps[0].0 + ps[0].1 + join_split(ps.drop_first())
    }
}

/// Bodies zipped with their terminators.
pub open spec fn zip_views(bs: Seq<Seq<char>>, ss: Seq<Seq<char>>) -> Seq<(Seq<char>, Seq<char>)> {
    Seq::new(
        bs.len(),
        |i: int|
            (
                bs[i],
                if 0 <= i < ss.len() {
                    ss[i]
                } else {
                    Seq::<char>::empty()
                },
            ),
    )
}

/// The join over the two views: each body followed by its terminator.
pub open spec fn join_views(bs: Seq<Seq<char>>, ss: Seq<Seq<char>>) -> Seq<char> {
    join_split(zip_views(bs, ss))
}

/// A line terminator of a non-final line: LF or CRLF.
pub open spec fn wf_sep(t: Seq<char>) -> bool {
    (t.len() == 1 && t[0] == '\n') || (t.len() == 2 && t[0] == '\r' && t[1] == '\n')
}

/// Well-formed split lines: bodies free of `'\n'`, every terminator LF or
/// CRLF except the empty last one, and no body ending in `'\r'` right before
/// a bare LF (such a `'\r'` would merge into the terminator on a re-split).
pub open spec fn wf_split(ps: Seq<(Seq<char>, Seq<char>)>) -> bool {
    &&& ps.len() >= 1
    &&& forall|k: int| 0 <= k < ps.len() ==> clean_line((#[trigger] ps[k]).0)
    &&& forall|k: int| 0 <= k < ps.len() - 1 ==> wf_sep((#[trigger] ps[k]).1)
    &&& ps[ps.len() - 1].1.len() == 0
    &&& forall|k: int|
        0 <= k < ps.len() ==> !((#[trigger] ps[k]).1.len() == 1 && ps[k].0.len() > 0 && ps[k].0[ps[
            k
        ].0.len() - 1] == '\r')
}

/// The views of a vector of owned strings.
pub open spec fn views_of(lines: Seq<String>) -> Seq<Seq<char>> {
    lines.map_values(|l: String| l@)
}

pub proof fn lemma_first_nl(s: Seq<char>)
    ensures
        first_nl(s) <= s.len(),
        first_nl(s) < s.len() ==> s[first_nl(s) as int] == '\n',
        forall|j: int| 0 <= j < first_nl(s) ==> s[j] != '\n',
    decreases s.len(),
{
    if s.len() == 0 {
    } else if s[0] == '\n' {
    } else {
        lemma_first_nl(s.drop_first());
        assert forall|j: int| 0 <= j < first_nl(s) implies s[j] != '\n' by {
            if j > 0 {
                assert(s.drop_first()[j - 1] != '\n');
            }
        }
    }
}

/// A position that is `'\n'` after a `'\n'`-free prefix is the first newline.
pub proof fn lemma_first_nl_at(s: Seq<char>, k: int)
    requires
        0 <= k <= s.len(),
        forall|j: int| 0 <= j < k ==> s[j] != '\n',
        k < s.len() ==> s[k] == '\n',
        k == s.len() ==> clean_line(s),
    ensures
        first_nl(s) == k,
{
    lemma_first_nl(s);
    if first_nl(s) < k {
        assert(s[first_nl(s) as int] == '\n');
    } else if first_nl(s) > k {
        assert(s[k] != '\n');
    }
}

/// Splitting yields at least one line, and the split is well formed.
pub proof fn lemma_line_split_wf(s: Seq<char>)
    ensures
        wf_split(line_split(s)),
    decreases s.len(),
{
    lemma_first_nl(s);
    let ps = line_split(s);
    if first_nl(s) < s.len() {
        let i = first_nl(s) as int;
        let b = if i >= 1 && s[i - 1] == '\r' {
            i - 1
        } else {
            i
        };
        let rest = s.subrange(i + 1, s.len() as int);
        lemma_line_split_wf(rest);
        let pr = line_split(rest);
        assert(ps[0] == (s.subrange(0, b), s.subrange(b, i + 1)));
        assert(forall|k: int| 1 <= k < ps.len() ==> ps[k] == pr[k - 1]);
        assert(clean_line(ps[0].0));
        assert(wf_sep(ps[0].1));
        assert forall|k: int| 0 <= k < ps.len() implies clean_line((#[trigger] ps[k]).0) by {
            if k >= 1 {
                assert(clean_line(pr[k - 1].0));
            }
        }
        assert forall|k: int| 0 <= k < ps.len() - 1 implies wf_sep((#[trigger] ps[k]).1) by {
            if k >= 1 {
                assert(wf_sep(pr[k - 1].1));
            }
        }
        if ps[0].1.len() == 1 && ps[0].0.len() > 0 {
            assert(b == i && !(i >= 1 && s[i - 1] == '\r'));
            assert(ps[0].0[ps[0].0.len() - 1] == s[i - 1]);
        }
        assert forall|k: int|
            0 <= k < ps.len() implies !((#[trigger] ps[k]).1.len() == 1 && ps[k].0.len() > 0
            && ps[k].0[ps[k].0.len() - 1] == '\r') by {
            if k >= 1 {
                assert(!(pr[k - 1].1.len() == 1 && pr[k - 1].0.len() > 0 && pr[k - 1].0[pr[k
                    - 1].0.len() - 1] == '\r'));
            }
        }
    }
}

/// Joining the lines of a string gives the string back.
pub proof fn lemma_join_of_split(s: Seq<char>)
    ensures
        join_split(line_split(s)) == s,
    decreases s.len(),
{
    lemma_first_nl(s);
    let ps = line_split(s);
    if first_nl(s) < s.len() {
        let i = first_nl(s) as int;
        let b = if i >= 1 && s[i - 1] == '\r' {
            i - 1
        } else {
            i
        };
        let rest = s.subrange(i + 1, s.len() as int);
        lemma_join_of_split(rest);
        assert(ps.drop_first() =~= line_split(rest));
        assert(join_split(ps) == s.subrange(0, b) + s.subrange(b, i + 1) + rest);
        assert(s.subrange(0, b) + s.subrange(b, i + 1) + rest =~= s);
    } else {
        assert(ps.drop_first() =~= Seq::<(Seq<char>, Seq<char>)>::empty());
        assert(join_split(ps.drop_first()) == Seq::<char>::empty());
        assert(join_split(ps) =~= s);
    }
}

/// Splitting a join gives the lines back, provided they are well formed.
pub proof fn lemma_split_of_join(ps: Seq<(Seq<char>, Seq<char>)>)
    requires
        wf_split(ps),
    ensures
        line_split(join_split(ps)) == ps,
    decreases ps.len(),
{
    let s = join_split(ps);
    if ps.len() == 1 {
        assert(ps.drop_first() =~= Seq::<(Seq<char>, Seq<char>)>::empty());
        assert(join_split(ps.drop_first()) == Seq::<char>::empty());
        assert(ps[0].1 =~= Seq::<char>::empty());
        assert(s =~= ps[0].0);
        lemma_first_nl_at(s, s.len() as int);
        assert(ps[0].1 =~= Seq::<char>::empty());
        assert(line_split(s) =~~= ps);
    } else {
        let b0 = ps[0].0;
        let t = ps[0].1;
        let rest = ps.drop_first();
        assert(wf_sep(t));
        assert forall|k: int| 0 <= k < rest.len() implies clean_line((#[trigger] rest[k]).0) by {
            assert(rest[k] == ps[k + 1]);
        }
        assert forall|k: int| 0 <= k < rest.len() - 1 implies wf_sep((#[trigger] rest[k]).1) by {
            assert(rest[k] == ps[k + 1]);
        }
        assert forall|k: int|
            0 <= k < rest.len() implies !((#[trigger] rest[k]).1.len() == 1 && rest[k].0.len() > 0
            && rest[k].0[rest[k].0.len() - 1] == '\r') by {
            assert(rest[k] == ps[k + 1]);
        }
        assert(rest[rest.len() - 1] == ps[ps.len() - 1]);
        let rj = join_split(rest);
        assert(s == b0 + t + rj);
        let i = b0.len() + t.len() - 1;
        assert(s[i] == t[t.len() - 1]);
        assert forall|j: int| 0 <= j < i implies s[j] != '\n' by {
            if j < b0.len() {
                assert(s[j] == b0[j]);
            } else {
                assert(t.len() == 2 && j == b0.len());
                assert(s[j] == t[0]);
            }
        }
        lemma_first_nl_at(s, i);
        let b = if i >= 1 && s[i - 1] == '\r' {
            i - 1
        } else {
            i
        };
        if t.len() == 2 {
            assert(s[i - 1] == t[0]);
            assert(b == b0.len());
        } else {
            if b0.len() > 0 {
                assert(s[i - 1] == b0[b0.len() - 1]);
                assert(s[i - 1] != '\r');
            }
            assert(b == b0.len());
        }
        assert(s.subrange(0, b) =~= b0);
        assert(s.subrange(b, i + 1) =~= t);
        assert(s.subrange(i + 1, s.len() as int) =~= rj);
        lemma_split_of_join(rest);
        assert(line_split(s) =~~= seq![(b0, t)] + rest);
        assert(seq![(b0, t)] + rest =~~= ps);
    }
}

/// Zipping the two views of a split gives the split back.
pub proof fn lemma_zip_of_split(ps: Seq<(Seq<char>, Seq<char>)>)
    ensures
        zip_views(
            ps.map_values(|p: (Seq<char>, Seq<char>)| p.0),
            ps.map_values(|p: (Seq<char>, Seq<char>)| p.1),
        ) == ps,
{
    assert(zip_views(
        ps.map_values(|p: (Seq<char>, Seq<char>)| p.0),
        ps.map_values(|p: (Seq<char>, Seq<char>)| p.1),
    ) =~~= ps);
}

/// A string is its bodies joined with its own terminators.
pub proof fn lemma_join_views_of(s: Seq<char>)
    ensures
        join_views(lines_of(s), seps_of(s)) == s,
{
    lemma_zip_of_split(line_split(s));
    lemma_join_of_split(s);
}

/// Joining after appending one more line appends its body and terminator.
pub proof fn lemma_join_split_push(ps: Seq<(Seq<char>, Seq<char>)>, p: (Seq<char>, Seq<char>))
    ensures
        join_split(ps.push(p)) == join_split(ps) + p.0 + p.1,
    decreases ps.len(),
{
    if ps.len() == 0 {
        assert(ps.push(p).drop_first() =~= Seq::<(Seq<char>, Seq<char>)>::empty());
        assert(join_split(ps.push(p).drop_first()) == Seq::<char>::empty());
        assert(ps.push(p)[0] == p);
        assert(join_split(ps.push(p)) =~= p.0 + p.1);
        assert(join_split(ps) + p.0 + p.1 =~= p.0 + p.1);
    } else {
        assert(ps.push(p).drop_first() =~= ps.drop_first().push(p));
        lemma_join_split_push(ps.drop_first(), p);
        assert(ps.push(p)[0] == ps[0]);
        assert(join_split(ps.push(p)) == ps[0].0 + ps[0].1 + (join_split(ps.drop_first()) + p.0
            + p.1));
        assert(ps[0].0 + ps[0].1 + (join_split(ps.drop_first()) + p.0 + p.1) =~= (ps[0].0 + ps[0].1
            + join_split(ps.drop_first())) + p.0 + p.1);
    }
}

// ---------------------------------------------------------------------------
// Executable split and join.
// ---------------------------------------------------------------------------
/// Position of the first `'\n'` of `s`, if any.
pub fn find_newline(s: &str) -> (r: Option<usize>)
    ensures
        match r {
            Some(i) => i == first_nl(s@) && i < s@.len(),
            None => first_nl(s@) == s@.len(),
        },
{
    let n = s.unicode_len();
    let mut i: usize = 0;
    while i < n
        invariant
            n == s@.len(),
            0 <= i <= n,
            forall|j: int| 0 <= j < i ==> s@[j] != '\n',
        decreases n - i,
    {
        if s.get_char(i) == '\n' {
            proof {
                lemma_first_nl_at(s@, i as int);
            }
            return Some(i);
        }
        i = i + 1;
    }
    proof {
        lemma_first_nl_at(s@, n as int);
    }
    None
}

/// The line bodies and terminators of `s`, as owned strings: exactly
/// `lines_of(s@)` and `seps_of(s@)`.
pub fn split_lines(s: &str) -> (r: (Vec<String>, Vec<String>))
    ensures
        views_of(r.0@) == lines_of(s@),
        views_of(r.1@) == seps_of(s@),
        r.0@.len() == r.1@.len(),
        r.0@.len() >= 1,
    decreases s@.len(),
{
    match find_newline(s) {
        None => {
            let mut bodies: Vec<String> = Vec::new();
            let mut seps: Vec<String> = Vec::new();
            bodies.push(s.to_owned());
            seps.push(String::new());
            proof {
                assert(views_of(bodies@) =~= lines_of(s@));
                assert(views_of(seps@) =~= seps_of(s@));
            }
            (bodies, seps)
        },
        Some(i) => {
            let n = s.unicode_len();
            let b = if i >= 1 && s.get_char(i - 1) == '\r' {
                i - 1
            } else {
                i
            };
            let head = s.substring_char(0, b).to_owned();
            let sep = s.substring_char(b, i + 1).to_owned();
            let rest = s.substring_char(i + 1, n);
            let (mut bodies, mut seps) = split_lines(rest);
            let ghost rb = bodies@;
            let ghost rs = seps@;
            bodies.insert(0, head);
            seps.insert(0, sep);
            proof {
                assert(line_split(s@) =~= seq![(head@, sep@)] + line_split(rest@));
                assert(lines_of(s@) =~= seq![head@] + lines_of(rest@));
                assert(seps_of(s@) =~= seq![sep@] + seps_of(rest@));
                assert(bodies@ =~= seq![head] + rb);
                assert(seps@ =~= seq![sep] + rs);
                assert(views_of(bodies@) =~= seq![head@] + views_of(rb));
                assert(views_of(seps@) =~= seq![sep@] + views_of(rs));
                assert(views_of(bodies@) =~= lines_of(s@));
                assert(views_of(seps@) =~= seps_of(s@));
            }
            (bodies, seps)
        },
    }
}

/// The bodies rejoined with their terminators, exactly
/// `join_views(views_of(bodies@), views_of(seps@))`.
pub fn join_lines_exec(bodies: &Vec<String>, seps: &Vec<String>) -> (r: String)
    requires
        bodies@.len() == seps@.len(),
    ensures
        r@ == join_views(views_of(bodies@), views_of(seps@)),
{
    let n = bodies.len();
    let mut r = String::new();
    let mut i: usize = 0;
    while i < n
        invariant
            n == bodies@.len() == seps@.len(),
            0 <= i <= n,
            r@ == join_split(zip_views(views_of(bodies@), views_of(seps@)).take(i as int)),
        decreases n - i,
    {
        r.append(bodies[i].as_str());
        r.append(seps[i].as_str());
        proof {
            let z = zip_views(views_of(bodies@), views_of(seps@));
            assert(z.take(i + 1) =~= z.take(i as int).push(z[i as int]));
            lemma_join_split_push(z.take(i as int), z[i as int]);
            assert(z[i as int] == (bodies@[i as int]@, seps@[i as int]@));
        }
        i = i + 1;
    }
    proof {
        let z = zip_views(views_of(bodies@), views_of(seps@));
        assert(z.take(n as int) =~= z);
    }
    r
}

// ---------------------------------------------------------------------------
// The line patcher: replace one line, replace a batch, insert a line.
// Line numbers are 1-indexed; 0 is the caller's responsibility and is ruled
// out here, and a number past the last line is reported as out of bounds.
// Every operation keeps each line's own terminator, so a file's separator
// convention — LF, CRLF or mixed, and a trailing terminator — survives.
// ---------------------------------------------------------------------------
/// The bodies of `ls` with every entry of `batch` applied: line `i + 1` is
/// replaced by `batch[i + 1]` where that key is present, and kept otherwise.
pub open spec fn batch_applied(ls: Seq<Seq<char>>, batch: Map<usize, String>) -> Seq<Seq<char>> {
    Seq::new(
        ls.len(),
        |i: int|
            if batch.dom().contains((i + 1) as usize) {
                batch[(i + 1) as usize]@
            } else {
                ls[i]
            },
    )
}

/// Replaces the 1-indexed line `line_number` of `content` by `new_line`.
///
/// Succeeds exactly when `line_number` does not exceed the line count, and
/// then returns the lines rejoined with the replacement body in place and
/// every terminator unchanged; otherwise reports the offending line number.
pub fn replace_single_parallel(content: String, line_number: usize, new_line: String) -> (result:
    Result<String, AppError>)
    requires
        line_number >= 1,
    ensures
        match result {
            Ok(r) => line_number <= lines_of(content@).len() && r@ == join_views(
                lines_of(content@).update(line_number - 1, new_line@),
                seps_of(content@),
            ),
            Err(e) => line_number > lines_of(content@).len() && e == AppError::OutOfBounds(
                line_number,
            ),
        },
{
    let (mut bodies, seps) = split_lines(content.as_str());
    if line_number <= bodies.len() {
        bodies.set(line_number - 1, new_line);
        proof {
            assert(views_of(bodies@) =~= lines_of(content@).update(line_number - 1, new_line@));
        }
        Ok(join_lines_exec(&bodies, &seps))
    } else {
        Err(AppError::OutOfBounds(line_number))
    }
}

/// The terminator that an insertion at gap `k` (before the line of that
/// index) adopts: the one of the nearest existing separator, or LF in a
/// content of a single line.
pub open spec fn sep_for_gap(ss: Seq<Seq<char>>, k: int) -> Seq<char> {
    if 1 <= k && k < ss.len() {
        ss[k - 1]
    } else if ss.len() >= 2 {
        if k <= 0 {
            ss[0]
        } else {
            ss[ss.len() - 2]
        }
    } else {
        seq!['\n']
    }
}

/// The terminators after inserting a line at gap `k`: the new line takes
/// `sep_for_gap`; when it becomes the last line, the previous last line
/// takes that terminator instead and the new line ends the content.
pub open spec fn seps_inserted(ss: Seq<Seq<char>>, k: int) -> Seq<Seq<char>> {
    if k == ss.len() {
        ss.update(ss.len() - 1, sep_for_gap(ss, k)).push(Seq::<char>::empty())
    } else {
        ss.insert(k, sep_for_gap(ss, k))
    }
}

/// The terminator an insertion at gap `k` adopts, as an owned string.
fn gap_sep(seps: &Vec<String>, k: usize) -> (t: String)
    requires
        seps@.len() >= 1,
        k <= seps@.len(),
    ensures
        t@ == sep_for_gap(views_of(seps@), k as int),
{
    proof {
        reveal_strlit("\n");
    }
    if 1 <= k && k < seps.len() {
        seps[k - 1].clone()
    } else if seps.len() >= 2 {
        if k == 0 {
            seps[0].clone()
        } else {
            seps[seps.len() - 2].clone()
        }
    } else {
        String::from_str("\n")
    }
}

/// Inserts `new_line` before (`mode` 0) or after (`mode` 1) the 1-indexed
/// line `line_number`; any other mode returns the content unchanged. The
/// inserted line adopts the terminator of the nearest existing separator,
/// so the content's convention is kept.
///
/// Succeeds exactly when `line_number` does not exceed the line count, so
/// inserting after the last line is allowed; otherwise reports the offending
/// line number.
pub fn insert_line_at(content: String, line_number: usize, mode: u32, new_line: String) -> (result:
    Result<String, AppError>)
    requires
        line_number >= 1,
    ensures
        match result {
            Ok(r) => line_number <= lines_of(content@).len() && {
                if mode == 1 {
                    r@ == join_views(
                        lines_of(content@).insert(line_number as int, new_line@),
                        seps_inserted(seps_of(content@), line_number as int),
                    )
                } else if mode == 0 {
                    r@ == join_views(
                        lines_of(content@).insert(line_number - 1, new_line@),
                        seps_inserted(seps_of(content@), line_number - 1),
                    )
                } else {
                    r@ == content@
                }
            },
            Err(e) => line_number > lines_of(content@).len() && e == AppError::OutOfBounds(
                line_number,
            ),
        },
{
    let (mut bodies, mut seps) = split_lines(content.as_str());
    if line_number <= bodies.len() {
        if mode == 1 || mode == 0 {
            let k = if mode == 1 {
                line_number
            } else {
                line_number - 1
            };
            let t = gap_sep(&seps, k);
            let ghost ss0 = views_of(seps@);
            if k == bodies.len() {
                let last = seps.len() - 1;
                seps.set(last, t);
                seps.push(String::new());
                bodies.push(new_line);
                proof {
                    assert(views_of(bodies@) =~= lines_of(content@).insert(k as int, new_line@));
                    assert(views_of(seps@) =~= seps_inserted(ss0, k as int));
                }
            } else {
                bodies.insert(k, new_line);
                seps.insert(k, t);
                proof {
                    assert(views_of(bodies@) =~= lines_of(content@).insert(k as int, new_line@));
                    assert(views_of(seps@) =~= seps_inserted(ss0, k as int));
                }
            }
            Ok(join_lines_exec(&bodies, &seps))
        } else {
            let r = join_lines_exec(&bodies, &seps);
            proof {
                lemma_join_views_of(content@);
            }
            Ok(r)
        }
    } else {
        Err(AppError::OutOfBounds(line_number))
    }
}

/// Applies every entry of `replacements` to `content` in one pass: the entry
/// with key `k` replaces the body of the 1-indexed line `k`; every
/// terminator is kept.
///
/// Succeeds exactly when every key is within the line count, and then
/// returns the lines rejoined with all replacements in place; otherwise
/// reports the lowest key that lies beyond the last line.
pub fn replace_multiple_parallel(content: String, replacements: &HashMap<usize, String>) -> (result:
    Result<String, AppError>)
    requires
        forall|k: usize| #[trigger] replacements@.dom().contains(k) ==> k >= 1,
    ensures
        match result {
            Ok(r) => {
                &&& forall|k: usize| #[trigger]
                    replacements@.dom().contains(k) ==> k <= lines_of(content@).len()
                &&& r@ == join_views(
                    batch_applied(lines_of(content@), replacements@),
                    seps_of(content@),
                )
            },
            Err(e) => {
                &&& e matches AppError::OutOfBounds(b)
                &&& replacements@.dom().contains(b)
                &&& b > lines_of(content@).len()
                &&& forall|k: usize| #[trigger]
                    replacements@.dom().contains(k) && k > lines_of(content@).len() ==> b <= k
            },
        },
{
    let (mut bodies, seps) = split_lines(content.as_str());
    let n = bodies.len();
    let ghost ls0 = lines_of(content@);
    let ghost key_seq = vstd::std_specs::iter::IteratorSpec::remaining(&replacements.keys());
    let ghost mut processed: int = 0;
    let mut bad: Option<usize> = None;
    for k in it: replacements.keys()
        invariant
            n == ls0.len(),
            it.seq() == key_seq,
            processed == it.index(),
            0 <= processed <= key_seq.len(),
            match bad {
                None => forall|j: int| 0 <= j < processed ==> *(#[trigger] key_seq[j]) <= n,
                Some(b) => {
                    &&& b > n
                    &&& exists|j: int| 0 <= j < processed && *(#[trigger] key_seq[j]) == b
                    &&& forall|j: int|
                        0 <= j < processed && *(#[trigger] key_seq[j]) > n ==> b <= *key_seq[j]
                },
            },
    {
        proof {
            assert(k == key_seq[processed]);
        }
        if *k > n {
            bad = match bad {
                None => Some(*k),
                Some(b) => if *k < b {
                    Some(*k)
                } else {
                    Some(b)
                },
            };
        }
        proof {
            processed = processed + 1;
        }
    }
    proof {
        assert(processed == key_seq.len());
        assert(key_seq.unref().to_set() == replacements@.dom());
        assert forall|k: usize| #[trigger] replacements@.dom().contains(k) implies exists|j: int|
            0 <= j < key_seq.len() && *(#[trigger] key_seq[j]) == k by {
            assert(key_seq.unref().contains(k));
            let j = choose|j: int| 0 <= j < key_seq.unref().len() && key_seq.unref()[j] == k;
            assert(*key_seq[j] == k);
        }
    }
    match bad {
        Some(b) => {
            proof {
                let j = choose|j: int| 0 <= j < key_seq.len() && *(#[trigger] key_seq[j]) == b;
                assert(key_seq.unref()[j] == b);
                assert(replacements@.dom().contains(b));
            }
            Err(AppError::OutOfBounds(b))
        },
        None => {
            let mut i: usize = 0;
            while i < n
                invariant
                    n == ls0.len(),
                    bodies@.len() == n,
                    seps@.len() == n,
                    forall|j: int|
                        0 <= j < i ==> views_of(bodies@)[j] == batch_applied(ls0, replacements@)[j],
                    forall|j: int| i <= j < n ==> views_of(bodies@)[j] == ls0[j],
                decreases n - i,
            {
                let key: usize = i + 1;
                match replacements.get(&key) {
                    Some(v) => {
                        let newline = v.clone();
                        let ghost prev_bodies = bodies@;
                        bodies.set(i, newline);
                        proof {
                            assert(replacements@.dom().contains(key));
                            assert(replacements@[key] == newline);
                            assert(views_of(bodies@) =~= views_of(prev_bodies).update(
                                i as int,
                                newline@,
                            ));
                            assert(batch_applied(ls0, replacements@)[i as int] == newline@);
                        }
                    },
                    None => {
                        proof {
                            assert(!replacements@.dom().contains(key));
                            assert(batch_applied(ls0, replacements@)[i as int] == ls0[i as int]);
                        }
                    },
                }
                i = i + 1;
            }
            proof {
                assert(views_of(bodies@) =~= batch_applied(ls0, replacements@));
            }
            Ok(join_lines_exec(&bodies, &seps))
        },
    }
}

// ---------------------------------------------------------------------------
// Character-sequence helpers: prefix test, substring test, decimal rendering.
// ---------------------------------------------------------------------------
/// `p` is an initial segment of `s`.
pub open spec fn is_prefix_of(p: Seq<char>, s: Seq<char>) -> bool {
    p.len() <= s.len() && forall|j: int| 0 <= j < p.len() ==> s[j] == p[j]
}

/// `sub` occurs in `s` starting at position `k`.
pub open spec fn match_at(s: Seq<char>, sub: Seq<char>, k: int) -> bool {
    0 <= k && k + sub.len() <= s.len() && forall|j: int| 0 <= j < sub.len() ==> s[k + j] == sub[j]
}

/// `sub` occurs somewhere in `s`.
pub open spec fn has_substring(s: Seq<char>, sub: Seq<char>) -> bool {
    exists|k: int| match_at(s, sub, k)
}

/// Whether `s` starts with `prefix`.
pub fn starts_with(s: &str, prefix: &str) -> (r: bool)
    ensures
        r == is_prefix_of(prefix@, s@),
{
    let n = s.unicode_len();
    let m = prefix.unicode_len();
    if m > n {
        return false;
    }
    let mut j: usize = 0;
    while j < m
        invariant
            m <= n,
            n == s@.len(),
            m == prefix@.len(),
            0 <= j <= m,
            forall|j2: int| 0 <= j2 < j ==> s@[j2] == prefix@[j2],
        decreases m - j,
    {
        if s.get_char(j) != prefix.get_char(j) {
            return false;
        }
        j = j + 1;
    }
    true
}

/// Whether `sub` occurs somewhere in `s`.
pub fn contains_substring(s: &str, sub: &str) -> (r: bool)
    ensures
        r == has_substring(s@, sub@),
{
    let n = s.unicode_len();
    let m = sub.unicode_len();
    if m > n {
        return false;
    }
    let mut k: usize = 0;
    while k <= n - m
        invariant
            m <= n,
            n == s@.len(),
            m == sub@.len(),
            0 <= k <= n - m + 1,
            forall|k2: int| 0 <= k2 < k ==> !match_at(s@, sub@, k2),
        decreases n + 1 - k,
    {
        let mut j: usize = 0;
        let mut ok = true;
        while ok && j < m
            invariant
                m <= n,
                n == s@.len(),
                m == sub@.len(),
                0 <= k <= n - m,
                0 <= j <= m,
                ok ==> forall|j2: int| 0 <= j2 < j ==> s@[k + j2] == sub@[j2],
                !ok ==> !match_at(s@, sub@, k as int),
            decreases m - j + if ok {
                1int
            } else {
                0int
            },
        {
            if s.get_char(k + j) != sub.get_char(j) {
                ok = false;
            } else {
                j = j + 1;
            }
        }
        if ok {
            assert(match_at(s@, sub@, k as int));
            return true;
        }
        k = k + 1;
    }
    assert forall|k2: int| true implies !match_at(s@, sub@, k2) by {
        if k2 > n - m {
            assert(!match_at(s@, sub@, k2));
        }
    }
    false
}

/// The decimal digit `d` as a character.
pub open spec fn digit_char(d: nat) -> char {
    if d == 0 {
        '0'
    } else if d == 1 {
        '1'
    } else if d == 2 {
        '2'
    } else if d == 3 {
        '3'
    } else if d == 4 {
        '4'
    } else if d == 5 {
        '5'
    } else if d == 6 {
        '6'
    } else if d == 7 {
        '7'
    } else if d == 8 {
        '8'
    } else {
        '9'
    }
}

/// The usual decimal rendering of `n`, most significant digit first and
/// without leading zeros (a single `'0'` for zero).
pub open spec fn dec_str(n: nat) -> Seq<char>
    decreases n,
{
    if n < 10 {
        seq![digit_char(n)]
    } else {
        dec_str(n / 10).push(digit_char(n % 10))
    }
}

fn digit_str(d: u32) -> (s: &'static str)
    requires
        d < 10,
    ensures
        s@ == seq![digit_char(d as nat)],
{
    proof {
        reveal_strlit("0");
        reveal_strlit("1");
        reveal_strlit("2");
        reveal_strlit("3");
        reveal_strlit("4");
        reveal_strlit("5");
        reveal_strlit("6");
        reveal_strlit("7");
        reveal_strlit("8");
        reveal_strlit("9");
    }
    let s = if d == 0 {
        "0"
    } else if d == 1 {
        "1"
    } else if d == 2 {
        "2"
    } else if d == 3 {
        "3"
    } else if d == 4 {
        "4"
    } else if d == 5 {
        "5"
    } else if d == 6 {
        "6"
    } else if d == 7 {
        "7"
    } else if d == 8 {
        "8"
    } else {
        "9"
    };
    proof {
        assert(s@ =~= seq![digit_char(d as nat)]);
    }
    s
}

/// Renders `n` in decimal, exactly `dec_str(n as nat)`.
pub fn decimal_string_usize(n: usize) -> (s: String)
    ensures
        s@ == dec_str(n as nat),
    decreases n,
{
    if n < 10 {
        digit_str((n % 10) as u32).to_owned()
    } else {
        let mut s = decimal_string_usize(n / 10);
        s.append(digit_str((n % 10) as u32));
        proof {
            assert(dec_str((n / 10) as nat) + seq![digit_char((n % 10) as nat)] =~= dec_str(
                (n / 10) as nat,
            ).push(digit_char((n % 10) as nat)));
        }
        s
    }
}

/// Renders `n` in decimal, exactly `dec_str(n as nat)`.
pub fn decimal_string(n: u32) -> (s: String)
    ensures
        s@ == dec_str(n as nat),
{
    decimal_string_usize(n as usize)
}

// ---------------------------------------------------------------------------
// Process-table sampling and executable-path selection.
// ---------------------------------------------------------------------------
/// Relies on sysinfo's `System::new_all` and `System::processes`, and on
/// `Process::name` and `Process::exe`: one entry per running process,
/// carrying its name and, where the table knows it, its executable path,
/// both converted lossily to strings. The result depends on the machine's
/// process table at the moment of the call, so nothing is promised of it.
#[verifier::external_body]
pub(crate) fn sample_processes() -> Vec<(String, Option<String>)> {
    let system = sysinfo::System::new_all();
    system.processes().values().map(
        |p| (
            p.name().to_string_lossy().into_owned(),
            p.exe().map(|e| e.to_string_lossy().into_owned()),
        ),
    ).collect()
}

/// Entry `i` of the process table matches the target name up to ASCII case.
pub open spec fn proc_matching(procs: Seq<(String, Option<String>)>, t: Seq<char>, i: int) -> bool {
    0 <= i < procs.len() && crate::watcher::eq_ignore_case(procs[i].0@, t)
}

/// Selects the executable path of the process named `target` among the
/// sampled entries: nothing when no entry matches, the single match's path
/// (if it has one), and for several matches their common path — or nothing
/// when two matches disagree, and the empty path when none of them knows
/// its own.
#[verifier::rlimit(60)]
pub fn select_process_path(procs: &Vec<(String, Option<String>)>, target: &str) -> (r: Option<
    String,
>)
    ensures
        match r {
            None => {
                ||| forall|j: int| !proc_matching(procs@, target@, j)
                ||| (exists|i: int|
                    {
                        &&& #[trigger] proc_matching(procs@, target@, i)
                        &&& procs@[i].1 is None
                        &&& forall|j: int| #[trigger] proc_matching(procs@, target@, j) ==> j == i
                    })
                ||| (exists|i: int, j: int|
                    {
                        &&& #[trigger] proc_matching(procs@, target@, i)
                        &&& #[trigger] proc_matching(procs@, target@, j)
                        &&& i != j
                        &&& procs@[i].1 matches Some(a) && procs@[j].1 matches Some(b) && a@ != b@
                    })
            },
            Some(p) => {
                ||| (exists|i: int|
                    {
                        &&& #[trigger] proc_matching(procs@, target@, i)
                        &&& (forall|j: int|
                            #[trigger] proc_matching(procs@, target@, j) ==> j == i)
                        &&& procs@[i].1 matches Some(a) && a@ == p@
                    })
                ||| ({
                    &&& exists|i: int, j: int|
                        #[trigger] proc_matching(procs@, target@, i) && #[trigger] proc_matching(
                            procs@,
                            target@,
                            j,
                        ) && i != j
                    &&& forall|i: int, j: int|
                        #[trigger] proc_matching(procs@, target@, i) && #[trigger] proc_matching(
                            procs@,
                            target@,
                            j,
                        ) && procs@[i].1 is Some && procs@[j].1 is Some ==> procs@[i].1->Some_0@
                            == procs@[j].1->Some_0@
                    &&& ((exists|i: int|
                        {
                            &&& #[trigger] proc_matching(procs@, target@, i)
                            &&& procs@[i].1 matches Some(a) && a@ == p@
                        }) || ((forall|i: int|
                        #[trigger] proc_matching(procs@, target@, i) ==> procs@[i].1 is None)
                        && p@ == Seq::<char>::empty()))
                })
            },
        },
{
    let n = procs.len();
    let mut hits: Vec<usize> = Vec::new();
    let mut i: usize = 0;
    while i < n
        invariant
            n == procs@.len(),
            0 <= i <= n,
            forall|k: int|
                0 <= k < hits@.len() ==> (#[trigger] hits@[k]) < i && proc_matching(
                    procs@,
                    target@,
                    hits@[k] as int,
                ),
            forall|j: int|
                0 <= j < i && #[trigger] proc_matching(procs@, target@, j) ==> hits@.contains(
                    j as usize,
                ),
            forall|k1: int, k2: int|
                0 <= k1 < k2 < hits@.len() ==> #[trigger] hits@[k1] < #[trigger] hits@[k2],
        decreases n - i,
    {
        if crate::watcher::str_eq_ignore_case(procs[i].0.as_str(), target) {
            let ghost old_hits = hits@;
            hits.push(i);
            proof {
                assert forall|j: int|
                    0 <= j <= i && #[trigger] proc_matching(procs@, target@, j) implies
                    hits@.contains(j as usize) by {
                    if j < i as int {
                        let k = choose|k: int| 0 <= k < old_hits.len() && old_hits[k] == j as usize;
                        assert(hits@[k] == j as usize);
                    } else {
                        assert(hits@[hits@.len() - 1] == i);
                    }
                }
            }
        }
        i = i + 1;
    }
    if hits.len() == 0 {
        assert forall|j: int| !proc_matching(procs@, target@, j) by {
            if proc_matching(procs@, target@, j) {
                assert(hits@.contains(j as usize));
            }
        }
        return None;
    }
    if hits.len() == 1 {
        let idx = hits[0];
        proof {
            assert forall|j: int| #[trigger] proc_matching(procs@, target@, j) implies j
                == idx as int by {
                assert(hits@.contains(j as usize));
                let k = choose|k: int| 0 <= k < hits@.len() && hits@[k] == j as usize;
                assert(k == 0);
            }
        }
        return match &procs[idx].1 {
            Some(p) => Some(p.clone()),
            None => None,
        };
    }
    let m = hits.len();
    let mut acc: Option<String> = None;
    let mut k: usize = 0;
    while k < m
        invariant
            n == procs@.len(),
            m == hits@.len(),
            m >= 2,
            0 <= k <= m,
            forall|k2: int|
                0 <= k2 < m ==> (#[trigger] hits@[k2]) < n && proc_matching(
                    procs@,
                    target@,
                    hits@[k2] as int,
                ),
            forall|j: int|
                #[trigger] proc_matching(procs@, target@, j) ==> hits@.contains(j as usize),
            forall|k1: int, k2: int|
                0 <= k1 < k2 < hits@.len() ==> #[trigger] hits@[k1] < #[trigger] hits@[k2],
            match acc {
                None => forall|k2: int|
                    0 <= k2 < k ==> (#[trigger] procs@[hits@[k2] as int]).1 is None,
                Some(q) => {
                    &&& exists|k2: int|
                        {
                            &&& 0 <= k2 < k
                            &&& (#[trigger] procs@[hits@[k2] as int]).1 matches Some(x) && x@ == q@
                        }
                    &&& forall|k2: int|
                        0 <= k2 < k ==> ((#[trigger] procs@[hits@[k2] as int]).1 matches Some(x)
                            ==> x@ == q@)
                },
            },
        decreases m - k,
    {
        let idx = hits[k];
        match &procs[idx].1 {
            Some(p) => {
                match &acc {
                    None => {
                        acc = Some(p.clone());
                    },
                    Some(q) => {
                        if *q != *p {
                            proof {
                                let k2 = choose|k2: int|
                                    {
                                        &&& 0 <= k2 < k
                                        &&& (#[trigger] procs@[hits@[k2] as int]).1 matches Some(
                                            x,
                                        ) && x@ == q@
                                    };
                                assert(hits@[k2] < hits@[k as int]);
                                assert(proc_matching(procs@, target@, hits@[k2] as int));
                                assert(proc_matching(procs@, target@, hits@[k as int] as int));
                            }
                            return None;
                        }
                    },
                }
            },
            None => {},
        }
        k = k + 1;
    }
    proof {
        assert(proc_matching(procs@, target@, hits@[0] as int));
        assert(proc_matching(procs@, target@, hits@[1] as int));
        assert(hits@[0] < hits@[1]);
    }
    match acc {
        Some(p) => {
            proof {
                assert forall|i2: int, j2: int|
                    #[trigger] proc_matching(procs@, target@, i2) && #[trigger] proc_matching(
                        procs@,
                        target@,
                        j2,
                    ) && procs@[i2].1 is Some && procs@[j2].1 is Some implies procs@[i2].1->Some_0@
                    == procs@[j2].1->Some_0@ by {
                    {
                        assert(hits@.contains(i2 as usize));
                        assert(hits@.contains(j2 as usize));
                        let ki = choose|ki: int|
                            0 <= ki < hits@.len() && hits@[ki] == i2 as usize;
                        let kj = choose|kj: int|
                            0 <= kj < hits@.len() && hits@[kj] == j2 as usize;
                        assert(0 <= ki < hits@.len() && hits@[ki] == i2 as usize);
                        assert(0 <= kj < hits@.len() && hits@[kj] == j2 as usize);
                        assert((#[trigger] procs@[hits@[ki] as int]).1 matches Some(a2) ==> a2@
                            == p@);
                        assert((#[trigger] procs@[hits@[kj] as int]).1 matches Some(b2) ==> b2@
                            == p@);
                        assert(procs@[i2].1->Some_0@ == p@);
                        assert(procs@[j2].1->Some_0@ == p@);
                    }
                }
                let k2 = choose|k2: int|
                    {
                        &&& 0 <= k2 < hits@.len()
                        &&& (#[trigger] procs@[hits@[k2] as int]).1 matches Some(x) && x@ == p@
                    };
                assert(proc_matching(procs@, target@, hits@[k2] as int));
            }
            Some(p)
        },
        None => {
            proof {
                assert forall|i2: int| #[trigger] proc_matching(procs@, target@, i2) implies procs@[i2].1
                    is None by {
                    assert(hits@.contains(i2 as usize));
                    let ki = choose|ki: int| 0 <= ki < hits@.len() && hits@[ki] == i2 as usize;
                    assert((#[trigger] procs@[hits@[ki] as int]).1 is None);
                }
            }
            Some(String::new())
        },
    }
}

/// Samples the process table and selects the executable path of the process
/// named `process_name` as `select_process_path` does. The sample depends on
/// the machine, so nothing is promised of the result.
pub fn get_running_process_path(process_name: &str) -> Option<String> {
    let procs = sample_processes();
    select_process_path(&procs, process_name)
}

// ---------------------------------------------------------------------------
// Laws of the line patcher.
// ---------------------------------------------------------------------------
/// Replacing the 1-indexed line `n` of a content changes only that line's
/// body: the result has the same line count, holds the new body at `n` and
/// every other body unchanged — and every terminator unchanged, so the
/// content's separator convention is kept line by line.
pub proof fn lemma_replace_preserves_other_lines(s: Seq<char>, n: int, l: Seq<char>)
    requires
        1 <= n <= lines_of(s).len(),
        insertable_line(l),
    ensures
        ({
            let r = join_views(lines_of(s).update(n - 1, l), seps_of(s));
            &&& lines_of(r).len() == lines_of(s).len()
            &&& lines_of(r)[n - 1] == l
            &&& forall|i: int|
                0 <= i < lines_of(r).len() && i != n - 1 ==> lines_of(r)[i] == lines_of(s)[i]
            &&& seps_of(r) == seps_of(s)
        }),
{
    lemma_line_split_wf(s);
    let ps = line_split(s);
    let updated = ps.update(n - 1, (l, ps[n - 1].1));
    assert(zip_views(lines_of(s).update(n - 1, l), seps_of(s)) =~~= updated);
    assert forall|k: int| 0 <= k < updated.len() implies clean_line((#[trigger] updated[k]).0) by {
        if k != n - 1 {
            assert(updated[k] == ps[k]);
        }
    }
    assert forall|k: int| 0 <= k < updated.len() - 1 implies wf_sep((#[trigger] updated[k]).1) by {
        if k != n - 1 {
            assert(updated[k] == ps[k]);
        } else {
            assert(updated[k].1 == ps[k].1);
        }
    }
    assert forall|k: int|
        0 <= k < updated.len() implies !((#[trigger] updated[k]).1.len() == 1 && updated[k].0.len()
        > 0 && updated[k].0[updated[k].0.len() - 1] == '\r') by {
        if k != n - 1 {
            assert(updated[k] == ps[k]);
        }
    }
    lemma_split_of_join(updated);
    let r = join_views(lines_of(s).update(n - 1, l), seps_of(s));
    assert(line_split(r) == updated);
    assert(lines_of(r) =~= lines_of(s).update(n - 1, l));
    assert(seps_of(r) =~= seps_of(s));
}

/// Inserting `x` before line `n` and then `y` after line `n` of the result
/// leaves `x` at line `n`, `y` at line `n + 1`, the original line `n` right
/// after them, and every other line shifted but unchanged.
pub proof fn lemma_insert_before_then_after(s: Seq<char>, n: int, x: Seq<char>, y: Seq<char>)
    requires
        1 <= n <= lines_of(s).len(),
        insertable_line(x),
        insertable_line(y),
    ensures
        ({
            let mid = join_views(lines_of(s).insert(n - 1, x), seps_inserted(seps_of(s), n - 1));
            let after = lines_of(
                join_views(lines_of(mid).insert(n, y), seps_inserted(seps_of(mid), n)),
            );
            &&& after.len() == lines_of(s).len() + 2
            &&& after[n - 1] == x
            &&& after[n] == y
            &&& after[n + 1] == lines_of(s)[n - 1]
            &&& forall|i: int| 0 <= i < n - 1 ==> after[i] == lines_of(s)[i]
            &&& forall|i: int| n + 1 < i < after.len() ==> after[i] == lines_of(s)[i - 2]
        }),
{
    lemma_line_split_wf(s);
    let ps = line_split(s);
    let t1 = sep_for_gap(seps_of(s), n - 1);
    assert(wf_sep(t1)) by {
        if 1 <= n - 1 && n - 1 < ps.len() {
            assert(seps_of(s)[n - 2] == ps[n - 2].1);
        } else if ps.len() >= 2 {
            assert(seps_of(s)[0] == ps[0].1);
        }
    }
    let ins1 = ps.insert(n - 1, (x, t1));
    ps.insert_ensures(n - 1, (x, t1));
    assert(zip_views(lines_of(s).insert(n - 1, x), seps_inserted(seps_of(s), n - 1)) =~~= ins1);
    assert(wf_split(ins1)) by {
        assert forall|k: int| 0 <= k < ins1.len() implies clean_line((#[trigger] ins1[k]).0) by {}
        assert forall|k: int| 0 <= k < ins1.len() - 1 implies wf_sep((#[trigger] ins1[k]).1) by {}
        assert(ins1[ins1.len() - 1] == ps[ps.len() - 1]);
        assert forall|k: int|
            0 <= k < ins1.len() implies !((#[trigger] ins1[k]).1.len() == 1 && ins1[k].0.len() > 0
            && ins1[k].0[ins1[k].0.len() - 1] == '\r') by {}
    }
    lemma_split_of_join(ins1);
    let mid = join_views(lines_of(s).insert(n - 1, x), seps_inserted(seps_of(s), n - 1));
    assert(line_split(mid) == ins1);
    assert(lines_of(mid) =~= ins1.map_values(|p: (Seq<char>, Seq<char>)| p.0));
    assert(seps_of(mid) =~= ins1.map_values(|p: (Seq<char>, Seq<char>)| p.1));
    let t2 = sep_for_gap(seps_of(mid), n);
    assert(t2 == ins1[n - 1].1);
    let ins2 = ins1.insert(n, (y, t2));
    ins1.insert_ensures(n, (y, t2));
    assert(zip_views(lines_of(mid).insert(n, y), seps_inserted(seps_of(mid), n)) =~~= ins2);
    assert(wf_split(ins2)) by {
        assert forall|k: int| 0 <= k < ins2.len() implies clean_line((#[trigger] ins2[k]).0) by {}
        assert forall|k: int| 0 <= k < ins2.len() - 1 implies wf_sep((#[trigger] ins2[k]).1) by {}
        assert(ins2[ins2.len() - 1] == ins1[ins1.len() - 1]);
        assert forall|k: int|
            0 <= k < ins2.len() implies !((#[trigger] ins2[k]).1.len() == 1 && ins2[k].0.len() > 0
            && ins2[k].0[ins2[k].0.len() - 1] == '\r') by {}
    }
    lemma_split_of_join(ins2);
    let after = lines_of(join_views(lines_of(mid).insert(n, y), seps_inserted(seps_of(mid), n)));
    assert(after =~= ins2.map_values(|p: (Seq<char>, Seq<char>)| p.0));
    assert(after[n + 1] == ins2[n + 1].0);
    assert(ins2[n + 1] == ins1[n]);
    assert(ins1[n] == ps[n - 1]);
    assert forall|i: int| 0 <= i < n - 1 implies after[i] == lines_of(s)[i] by {
        assert(ins2[i] == ins1[i]);
        assert(ins1[i] == ps[i]);
    }
    assert forall|i: int| n + 1 < i < after.len() implies after[i] == lines_of(s)[i - 2] by {
        assert(ins2[i] == ins1[i - 1]);
        assert(ins1[i - 1] == ps[i - 2]);
    }
}

} // verus!
