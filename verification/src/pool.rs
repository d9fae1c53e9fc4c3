//! Parsing the plain-text output of a pool listing command: one pool name
//! per line, with trailing whitespace ignored.

use vstd::prelude::*;

verus! {

/// The name of one storage pool.
#[derive(Debug)]
pub struct PoolName(pub String);

/// A failure while listing pools, carrying its diagnostic message.
#[derive(Debug)]
pub struct Error {
    message: String,
}

impl View for Error {
    type V = Seq<char>;

    closed spec fn view(&self) -> Seq<char> {
        self.message@
    }
}

impl Error {
    /// Wraps a diagnostic message.
    pub fn new(message: String) -> (r: Error)
        ensures
            r@ == message@,
    {
        Error { message }
    }

    /// The diagnostic message.
    pub fn message(&self) -> (r: &String)
        ensures
            r@ == self@,
    {
        &self.message
    }
}

/// Whitespace trimmed from the end of the command output.
pub open spec fn is_trim_ws(c: char) -> bool {
    c == ' ' || c == '\t' || c == '\r' || c == '\n'
}

/// The output with its trailing whitespace removed.
pub open spec fn trim_end_spec(s: Seq<char>) -> Seq<char>
    decreases s.len(),
{
    if s.len() > 0 && is_trim_ws(s.last()) {
        trim_end_spec(s.drop_last())
    } else {
        s
    }
}

/// The position of the first line break, or a negative value when there is
/// none.
pub open spec fn find_nl(s: Seq<char>) -> int
    decreases s.len(),
{
    if s.len() == 0 {
        -1
    } else if s[0] == '\n' {
        0
    } else {
        let r = find_nl(s.drop_first());
        if r < 0 {
            -1
        } else {
            r + 1
        }
    }
}

/// The text split at its line breaks; empty text holds no lines.
pub open spec fn split_lines(s: Seq<char>) -> Seq<Seq<char>>
    decreases s.len(),
{
    if s.len() == 0 {
        Seq::empty()
    } else {
        let k = find_nl(s);
        if !(0 <= k < s.len()) {
            seq![s]
        } else {
            seq![s.take(k)] + split_lines(s.skip(k + 1))
        }
    }
}

/// A line with a carriage return left at its end by a foreign line ending
/// is taken without it.
pub open spec fn strip_cr(l: Seq<char>) -> Seq<char> {
    if l.len() > 0 && l.last() == '\r' {
        l.drop_last()
    } else {
        l
    }
}

/// The pool names named by a listing output: its lines, after trailing
/// whitespace is dropped.
pub open spec fn pool_lines(s: Seq<char>) -> Seq<Seq<char>> {
    split_lines(trim_end_spec(s)).map_values(|l: Seq<char>| strip_cr(l))
}

/// The names held by a list of pools.
pub open spec fn pool_views(p: Seq<PoolName>) -> Seq<Seq<char>> {
    Seq::new(p.len(), |i: int| p[i].0@)
}

/// A line break at position `m`, with none before it, is the one the scan
/// finds.
proof fn lemma_find_nl_at(s: Seq<char>, m: int)
    requires
        0 <= m < s.len(),
        s[m] == '\n',
        forall|q: int| 0 <= q < m ==> s[q] != '\n',
    ensures
        find_nl(s) == m,
    decreases s.len(),
{
    if m > 0 {
        assert forall|q: int| 0 <= q < m - 1 implies s.drop_first()[q] != '\n' by {
            assert(s.drop_first()[q] == s[q + 1]);
        }
        assert(s.drop_first()[m - 1] == s[m]);
        lemma_find_nl_at(s.drop_first(), m - 1);
    }
}

/// Without a line break the scan finds none.
proof fn lemma_find_nl_none(s: Seq<char>)
    requires
        forall|q: int| 0 <= q < s.len() ==> s[q] != '\n',
    ensures
        find_nl(s) == -1,
    decreases s.len(),
{
    if s.len() > 0 {
        assert forall|q: int| 0 <= q < s.len() - 1 implies s.drop_first()[q] != '\n' by {
            assert(s.drop_first()[q] == s[q + 1]);
        }
        lemma_find_nl_none(s.drop_first());
    }
}

/// Trimming stops exactly where the trailing whitespace starts.
proof fn lemma_trim_end_take(s: Seq<char>, e: int)
    requires
        0 <= e <= s.len(),
        forall|q: int| e <= q < s.len() ==> is_trim_ws(#[trigger] s[q]),
        e > 0 ==> !is_trim_ws(s[e - 1]),
    ensures
        trim_end_spec(s) == s.take(e),
    decreases s.len(),
{
    if s.len() == e {
        assert(s.take(e) =~= s);
    } else {
        assert(is_trim_ws(s.last()));
        assert forall|q: int| e <= q < s.drop_last().len() implies is_trim_ws(
            #[trigger] s.drop_last()[q],
        ) by {
            assert(s.drop_last()[q] == s[q]);
        }
        if e > 0 {
            assert(s.drop_last()[e - 1] == s[e - 1]);
        }
        lemma_trim_end_take(s.drop_last(), e);
        assert(s.drop_last().take(e) =~= s.take(e));
    }
}

/// Parses a pool listing output into the pools it names, one per line.
pub fn pools_from_output(out_text: &str) -> (r: Vec<PoolName>)
    ensures
        pool_views(r@) == pool_lines(out_text@),
{
    let len = out_text.unicode_len();
    let mut e = len;
    while e > 0
        invariant
            e <= len,
            len == out_text@.len(),
            forall|q: int| e <= q < len ==> is_trim_ws(#[trigger] out_text@[q]),
        ensures
            e <= len,
            len == out_text@.len(),
            forall|q: int| e <= q < len ==> is_trim_ws(#[trigger] out_text@[q]),
            e > 0 ==> !is_trim_ws(out_text@[e - 1]),
        decreases e,
    {
        let c = out_text.get_char(e - 1);
        if !(c == ' ' || c == '\t' || c == '\r' || c == '\n') {
            break ;
        }
        e = e - 1;
    }
    proof {
        lemma_trim_end_take(out_text@, e as int);
    }
    let ghost target = pool_lines(out_text@);
    let mut out: Vec<PoolName> = Vec::new();
    let mut start: usize = 0;
    proof {
        assert(out_text@.take(e as int) =~= out_text@.subrange(0, e as int));
        assert(pool_views(out@) + split_lines(out_text@.subrange(0, e as int)).map_values(
            |l: Seq<char>| strip_cr(l),
        ) =~= target);
    }
    while start < e
        invariant
            start <= e <= len,
            len == out_text@.len(),
            e > 0 ==> !is_trim_ws(out_text@[e - 1]),
            pool_views(out@) + split_lines(out_text@.subrange(start as int, e as int)).map_values(
                |l: Seq<char>| strip_cr(l),
            ) =~= target,
        decreases e - start,
    {
        let ghost sub = out_text@.subrange(start as int, e as int);
        // find the end of the current line
        let mut k = start;
        while k < e
            invariant
                start <= k <= e <= len,
                len == out_text@.len(),
                forall|q: int| start <= q < k ==> out_text@[q] != '\n',
            ensures
                start <= k <= e,
                forall|q: int| start <= q < k ==> out_text@[q] != '\n',
                k < e ==> out_text@[k as int] == '\n',
            decreases e - k,
        {
            if out_text.get_char(k) == '\n' {
                break ;
            }
            k = k + 1;
        }
        let line_end = if k > start && out_text.get_char(k - 1) == '\r' {
            k - 1
        } else {
            k
        };
        let piece = out_text.substring_char(start, line_end);
        let ghost out_old = out@;
        out.push(PoolName(piece.to_owned()));
        proof {
            let st = start as int;
            let ki = k as int;
            let line = out_text@.subrange(st, ki);
            assert forall|q: int| 0 <= q < sub.len() implies sub[q] == out_text@[st + q] by {}
            assert(piece@ =~= strip_cr(line)) by {
                if k > start && out_text@[ki - 1] == '\r' {
                    assert(line.last() == '\r');
                    assert(out_text@.subrange(st, ki - 1) =~= line.drop_last());
                } else {
                    if line.len() > 0 && line.last() == '\r' {
                        assert(out_text@[ki - 1] == '\r');
                    }
                }
            }
            assert(pool_views(out@) =~= pool_views(out_old) + seq![strip_cr(line)]);
            if k < e {
                assert(sub[ki - st] == '\n');
                assert forall|q: int| 0 <= q < ki - st implies sub[q] != '\n' by {
                    assert(sub[q] == out_text@[st + q]);
                }
                lemma_find_nl_at(sub, ki - st);
                assert(sub.take(ki - st) =~= line);
                assert(sub.skip(ki - st + 1) =~= out_text@.subrange(ki + 1, e as int));
                assert(split_lines(sub) =~= seq![line] + split_lines(
                    out_text@.subrange(ki + 1, e as int),
                ));
                assert(split_lines(sub).map_values(|l: Seq<char>| strip_cr(l)) =~= seq![
                    strip_cr(line),
                ] + split_lines(out_text@.subrange(ki + 1, e as int)).map_values(
                    |l: Seq<char>| strip_cr(l),
                ));
                assert(pool_views(out@) + split_lines(
                    out_text@.subrange(ki + 1, e as int),
                ).map_values(|l: Seq<char>| strip_cr(l)) =~= target);
            } else {
                assert(k == e);
                assert forall|q: int| 0 <= q < sub.len() implies sub[q] != '\n' by {
                    assert(sub[q] == out_text@[st + q]);
                }
                lemma_find_nl_none(sub);
                assert(sub =~= line);
                assert(split_lines(sub) =~= seq![line]);
                assert(split_lines(sub).map_values(|l: Seq<char>| strip_cr(l)) =~= seq![
                    strip_cr(line),
                ]);
                assert(out_text@.subrange(e as int, e as int) =~= Seq::<char>::empty());
                assert(split_lines(out_text@.subrange(e as int, e as int)).map_values(
                    |l: Seq<char>| strip_cr(l),
                ) =~= Seq::<Seq<char>>::empty());
                assert(pool_views(out@) + split_lines(
                    out_text@.subrange(e as int, e as int),
                ).map_values(|l: Seq<char>| strip_cr(l)) =~= target);
            }
        }
        if k < e {
            start = k + 1;
        } else {
            start = e;
        }
    }
    proof {
        assert(out_text@.subrange(start as int, e as int) =~= Seq::<char>::empty());
        assert(split_lines(Seq::<char>::empty()).map_values(|l: Seq<char>| strip_cr(l))
            =~= Seq::<Seq<char>>::empty());
        assert(pool_views(out@) =~= target);
    }
    out
}

/// Parses a single-pool listing output: the first listed pool, or a
/// failure when the output names none.
pub fn single_pool_from_output(out_text: &str) -> (r: Result<PoolName, Error>)
    ensures
        (r is Ok) <==> pool_lines(out_text@).len() > 0,
        r matches Ok(p) ==> p.0@ == pool_lines(out_text@)[0],
        r matches Err(e) ==> e@ == "Pool not found"@,
{
    let mut pools = pools_from_output(out_text);
    if pools.len() > 0 {
        let p = pools.remove(0);
        Ok(p)
    } else {
        Err(Error::new("Pool not found".to_owned()))
    }
}

} // verus!
