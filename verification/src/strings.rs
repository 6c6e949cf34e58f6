//! Trimming and comma-splitting of the host list.
//!
//! The external form of the host list is one string: comma-separated host
//! identifiers, each possibly surrounded by whitespace.  [`hosts_of`] is the
//! specification of how that string is read, and [`split_hosts`] the
//! verified executable form.

use vstd::prelude::*;
use vstd::string::StrSliceExecFns;

verus! {

/// Whether `c` is whitespace for the purpose of trimming host names.
pub open spec fn is_space(c: char) -> bool {
    c == ' ' || c == '\t' || c == '\n' || c == '\r'
}

/// `s` without its leading whitespace.
pub open spec fn trim_left(s: Seq<char>) -> Seq<char>
    decreases s.len(),
{
    if s.len() > 0 && is_space(s[0]) {
        trim_left(s.drop_first())
    } else {
        s
    }
}

/// `s` without its trailing whitespace.
pub open spec fn trim_right(s: Seq<char>) -> Seq<char>
    decreases s.len(),
{
    if s.len() > 0 && is_space(s.last()) {
        trim_right(s.drop_last())
    } else {
        s
    }
}

/// `s` without leading and trailing whitespace.
pub open spec fn trimmed(s: Seq<char>) -> Seq<char> {
    trim_right(trim_left(s))
}

/// The pieces of `s` between its commas, in order.  A string without commas
/// is one piece; every comma separates two pieces, so `",".split` has two
/// empty pieces.
pub open spec fn split_commas(s: Seq<char>) -> Seq<Seq<char>>
    decreases s.len(),
{
    if s.len() == 0 {
        seq![Seq::empty()]
    } else if s[0] == ',' {
        seq![Seq::empty()] + split_commas(s.drop_first())
    } else {
        let rest = split_commas(s.drop_first());
        seq![seq![s[0]] + rest[0]] + rest.drop_first()
    }
}

/// Each piece of `toks`, trimmed.
pub open spec fn trim_each(toks: Seq<Seq<char>>) -> Seq<Seq<char>> {
    toks.map_values(|tok: Seq<char>| trimmed(tok))
}

/// The character sequences of a vector of strings, in order.
pub open spec fn host_views(hosts: Seq<String>) -> Seq<Seq<char>> {
    hosts.map_values(|h: String| h@)
}

/// The hosts named by the external host-list string `s`: nothing when the
/// trimmed string is empty, and otherwise the comma-separated pieces of the
/// trimmed string, each trimmed again.
pub open spec fn hosts_of(s: Seq<char>) -> Seq<Seq<char>> {
    let t = trimmed(s);
    if t.len() == 0 {
        Seq::empty()
    } else {
        trim_each(split_commas(t))
    }
}

proof fn lemma_trim_each_push(toks: Seq<Seq<char>>, tok: Seq<char>)
    ensures
        trim_each(toks.push(tok)) == trim_each(toks).push(trimmed(tok)),
{
    assert(trim_each(toks.push(tok)) =~= trim_each(toks).push(trimmed(tok)));
}

proof fn lemma_host_views_push(hosts: Seq<String>, h: String)
    ensures
        host_views(hosts.push(h)) == host_views(hosts).push(h@),
{
    assert(host_views(hosts.push(h)) =~= host_views(hosts).push(h@));
}

proof fn lemma_trim_left_skip(s: Seq<char>, lo: int)
    requires
        0 <= lo <= s.len(),
        forall|i: int| 0 <= i < lo ==> is_space(#[trigger] s[i]),
        lo < s.len() ==> !is_space(s[lo]),
    ensures
        trim_left(s) == s.skip(lo),
    decreases lo,
{
    if lo == 0 {
        assert(s.skip(0) =~= s);
    } else {
        assert(is_space(s[0]));
        let d = s.drop_first();
        assert(forall|i: int| 0 <= i < lo - 1 ==> is_space(#[trigger] d[i]));
        lemma_trim_left_skip(d, lo - 1);
        assert(d.skip(lo - 1) =~= s.skip(lo));
    }
}

proof fn lemma_trim_right_take(s: Seq<char>, hi: int)
    requires
        0 <= hi <= s.len(),
        forall|i: int| hi <= i < s.len() ==> is_space(#[trigger] s[i]),
        hi > 0 ==> !is_space(s[hi - 1]),
    ensures
        trim_right(s) == s.take(hi),
    decreases s.len(),
{
    if hi == s.len() {
        if s.len() > 0 {
            assert(!is_space(s.last()));
        }
        assert(s.take(hi) =~= s);
    } else {
        assert(is_space(s.last()));
        let d = s.drop_last();
        lemma_trim_right_take(d, hi);
        assert(d.take(hi) =~= s.take(hi));
    }
}

/// If everything before `lo` and everything from `hi` on is whitespace, and
/// the characters just inside those bounds are not, then trimming keeps
/// exactly the characters between `lo` and `hi`.
proof fn lemma_trimmed_subrange(s: Seq<char>, lo: int, hi: int)
    requires
        0 <= lo <= hi <= s.len(),
        forall|i: int| 0 <= i < lo ==> is_space(#[trigger] s[i]),
        forall|i: int| hi <= i < s.len() ==> is_space(#[trigger] s[i]),
        lo < hi ==> !is_space(s[lo]) && !is_space(s[hi - 1]),
    ensures
        trimmed(s) == s.subrange(lo, hi),
{
    if lo == hi {
        // every character of `s` is whitespace
        assert(forall|i: int| 0 <= i < s.len() ==> is_space(#[trigger] s[i]));
        lemma_trim_left_skip(s, s.len() as int);
        assert(s.skip(s.len() as int) =~= Seq::<char>::empty());
        assert(trim_right(Seq::<char>::empty()) =~= Seq::<char>::empty());
        assert(s.subrange(lo, hi) =~= Seq::<char>::empty());
    } else {
        lemma_trim_left_skip(s, lo);
        let t = s.skip(lo);
        assert(forall|i: int| hi - lo <= i < t.len() ==> is_space(#[trigger] t[i]));
        assert(!is_space(t[hi - lo - 1]));
        lemma_trim_right_take(t, hi - lo);
        assert(t.take(hi - lo) =~= s.subrange(lo, hi));
    }
}

proof fn lemma_split_no_comma(s: Seq<char>)
    requires
        forall|k: int| 0 <= k < s.len() ==> #[trigger] s[k] != ',',
    ensures
        split_commas(s) == seq![s],
    decreases s.len(),
{
    if s.len() == 0 {
        assert(s =~= Seq::<char>::empty());
        assert(split_commas(s) =~= seq![s]);
    } else {
        let d = s.drop_first();
        lemma_split_no_comma(d);
        let rest = split_commas(d);
        assert(rest == seq![d]);
        assert(rest[0] == d);
        assert(rest.drop_first() =~= Seq::<Seq<char>>::empty());
        assert(seq![s[0]] + d =~= s);
        assert(split_commas(s) =~= seq![s]);
    }
}

proof fn lemma_split_at_comma(s: Seq<char>, i: int)
    requires
        0 <= i < s.len(),
        forall|k: int| 0 <= k < i ==> #[trigger] s[k] != ',',
        s[i] == ',',
    ensures
        split_commas(s) == seq![s.take(i)] + split_commas(s.skip(i + 1)),
    decreases i,
{
    if i == 0 {
        assert(s.take(0) =~= Seq::<char>::empty());
        assert(s.skip(1) =~= s.drop_first());
    } else {
        let d = s.drop_first();
        assert(forall|k: int| 0 <= k < i - 1 ==> #[trigger] d[k] != ',');
        assert(d[i - 1] == ',');
        lemma_split_at_comma(d, i - 1);
        let rest = split_commas(d);
        assert(rest == seq![d.take(i - 1)] + split_commas(d.skip(i)));
        assert(rest[0] == d.take(i - 1));
        assert(seq![s[0]] + d.take(i - 1) =~= s.take(i));
        assert(rest.drop_first() =~= split_commas(d.skip(i)));
        assert(d.skip(i) =~= s.skip(i + 1));
        assert(split_commas(s) =~= seq![s.take(i)] + split_commas(s.skip(i + 1)));
    }
}

/// Whether `c` is whitespace, executably.
fn is_space_char(c: char) -> (r: bool)
    ensures
        r == is_space(c),
{
    c == ' ' || c == '\t' || c == '\n' || c == '\r'
}

/// The bounds that trimming the characters of `s` between `from` and `to`
/// keeps: whitespace lies outside them, and non-whitespace on their edges.
fn trim_bounds(s: &str, from: usize, to: usize) -> (bounds: (usize, usize))
    requires
        from <= to <= s@.len(),
    ensures
        from <= bounds.0 <= bounds.1 <= to,
        trimmed(s@.subrange(from as int, to as int)) == s@.subrange(
            bounds.0 as int,
            bounds.1 as int,
        ),
{
    let mut lo: usize = from;
    loop
        invariant_except_break
            from <= lo <= to,
            to <= s@.len(),
            forall|i: int| from <= i < lo ==> is_space(#[trigger] s@[i]),
        ensures
            from <= lo <= to,
            forall|i: int| from <= i < lo ==> is_space(#[trigger] s@[i]),
            lo < to ==> !is_space(s@[lo as int]),
        decreases to - lo,
    {
        if lo == to {
            break ;
        }
        let c: char = s.get_char(lo);
        if !is_space_char(c) {
            break ;
        }
        lo = lo + 1;
    }
    let mut hi: usize = to;
    if lo == to {
        hi = lo;
    } else {
        loop
            invariant_except_break
                lo <= hi <= to,
                to <= s@.len(),
                forall|i: int| hi <= i < to ==> is_space(#[trigger] s@[i]),
            ensures
                lo <= hi <= to,
                forall|i: int| hi <= i < to ==> is_space(#[trigger] s@[i]),
                hi > lo ==> !is_space(s@[hi - 1]),
            decreases hi,
        {
            if hi == lo {
                break ;
            }
            let c: char = s.get_char(hi - 1);
            if !is_space_char(c) {
                break ;
            }
            hi = hi - 1;
        }
    }
    proof {
        let sub = s@.subrange(from as int, to as int);
        assert(forall|i: int| 0 <= i < lo - from ==> is_space(#[trigger] sub[i]));
        assert(forall|i: int| hi - from <= i < sub.len() ==> is_space(#[trigger] sub[i]));
        if lo < hi {
            assert(sub[lo - from] == s@[lo as int]);
            assert(sub[hi - from - 1] == s@[hi - 1]);
        }
        lemma_trimmed_subrange(sub, lo - from, hi - from);
        assert(sub.subrange(lo - from, hi - from) =~= s@.subrange(lo as int, hi as int));
    }
    (lo, hi)
}

/// The characters of `s` between `from` and `to`, trimmed of surrounding
/// whitespace, as an owned string.
fn trimmed_substring(s: &str, from: usize, to: usize) -> (r: String)
    requires
        from <= to <= s@.len(),
    ensures
        r@ == trimmed(s@.subrange(from as int, to as int)),
{
    let bounds = trim_bounds(s, from, to);
    let piece: &str = s.substring_char(bounds.0, bounds.1);
    piece.to_owned()
}

/// Read the host-list string: trim it, split it on commas, and trim each
/// piece, yielding the hosts to check in order.  An empty or all-whitespace
/// string yields no hosts.
pub fn split_hosts(s: &str) -> (hosts: Vec<String>)
    ensures
        host_views(hosts@) == hosts_of(s@),
{
    let n: usize = s.unicode_len();
    let bounds = trim_bounds(s, 0, n);
    let tl: usize = bounds.0;
    let th: usize = bounds.1;
    let ghost t: Seq<char> = trimmed(s@);
    proof {
        assert(s@.subrange(0, n as int) =~= s@);
        assert(t == s@.subrange(tl as int, th as int));
    }
    let mut hosts: Vec<String> = Vec::new();
    if tl == th {
        proof {
            assert(host_views(hosts@) =~= hosts_of(s@));
        }
        return hosts;
    }
    let mut start: usize = tl;
    let mut j: usize = tl;
    let ghost mut done: Seq<Seq<char>> = Seq::empty();
    proof {
        assert(t.skip(0) =~= t);
        assert(done + split_commas(t) =~= split_commas(t));
        assert(host_views(hosts@) =~= trim_each(done));
    }
    loop
        invariant_except_break
            tl <= start <= j <= th,
            th <= s@.len(),
            t == trimmed(s@),
            t == s@.subrange(tl as int, th as int),
            forall|k: int| start <= k < j ==> #[trigger] s@[k] != ',',
            split_commas(t) == done + split_commas(t.skip(start - tl)),
            host_views(hosts@) == trim_each(done),
        ensures
            host_views(hosts@) == trim_each(split_commas(t)),
        decreases th - j,
    {
        if j == th {
            let last_piece: String = trimmed_substring(s, start, th);
            proof {
                let u = t.skip(start - tl);
                assert(forall|k: int| 0 <= k < u.len() ==> #[trigger] u[k] != ',') by {
                    assert(forall|k: int| 0 <= k < u.len() ==> u[k] == s@[start + k]);
                }
                lemma_split_no_comma(u);
                assert(u =~= s@.subrange(start as int, th as int));
                assert(split_commas(t) =~= done.push(u));
                lemma_trim_each_push(done, u);
                lemma_host_views_push(hosts@, last_piece);
            }
            hosts.push(last_piece);
            break ;
        }
        let c: char = s.get_char(j);
        if c == ',' {
            let piece: String = trimmed_substring(s, start, j);
            proof {
                let u = t.skip(start - tl);
                let i: int = j - start;
                assert(forall|k: int| 0 <= k < i ==> #[trigger] u[k] != ',') by {
                    assert(forall|k: int| 0 <= k < u.len() ==> u[k] == s@[start + k]);
                }
                assert(u[i as int] == s@[j as int]);
                lemma_split_at_comma(u, i as int);
                assert(u.take(i as int) =~= s@.subrange(start as int, j as int));
                assert(u.skip(i + 1) =~= t.skip(j + 1 - tl));
                assert(split_commas(t) =~= done.push(u.take(i as int)) + split_commas(
                    t.skip(j + 1 - tl),
                ));
                lemma_trim_each_push(done, u.take(i as int));
                lemma_host_views_push(hosts@, piece);
                done = done.push(u.take(i as int));
            }
            hosts.push(piece);
            start = j + 1;
        }
        j = j + 1;
    }
    proof {
        assert(host_views(hosts@) =~= hosts_of(s@));
    }
    hosts
}

} // verus!
