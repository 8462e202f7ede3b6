//! The text that a measured process sends over the metric channel: lines of
//! `key:value|type`, several to a datagram, of which `key` and `value` count.

use vstd::prelude::*;
use vstd::slice::{slice_subrange, slice_to_vec};

verus! {

pub const NEWLINE: u8 = 10;

pub const CARRIAGE_RETURN: u8 = 13;

pub const PIPE: u8 = 124;

pub const COLON: u8 = 58;

/// One metric of a line: its key and the text of its value.
#[derive(Debug, Clone, PartialEq, Eq)]
pub struct Metric {
    pub key: Vec<u8>,
    pub value: Vec<u8>,
}

impl View for Metric {
    type V = (Seq<u8>, Seq<u8>);

    open spec fn view(&self) -> (Seq<u8>, Seq<u8>) {
        (self.key@, self.value@)
    }
}

/// ASCII whitespace, which is dropped at both ends of the received text.
pub open spec fn is_space(b: u8) -> bool {
    b == 9 || b == 10 || b == 11 || b == 12 || b == 13 || b == 32
}

/// The first position in `lo..hi` that holds `b`, or `hi` where none does.
pub open spec fn find_from(s: Seq<u8>, b: u8, lo: int, hi: int) -> int
    decreases hi - lo,
{
    if lo >= hi {
        hi
    } else if s[lo] == b {
        lo
    } else {
        find_from(s, b, lo + 1, hi)
    }
}

/// Where the text in `lo..hi` starts once leading whitespace is dropped.
pub open spec fn trim_lo(s: Seq<u8>, lo: int, hi: int) -> int
    decreases hi - lo,
{
    if lo >= hi {
        hi
    } else if is_space(s[lo]) {
        trim_lo(s, lo + 1, hi)
    } else {
        lo
    }
}

/// Where the text in `lo..hi` ends once trailing whitespace is dropped.
pub open spec fn trim_hi(s: Seq<u8>, lo: int, hi: int) -> int
    decreases hi - lo,
{
    if lo >= hi {
        lo
    } else if is_space(s[hi - 1]) {
        trim_hi(s, lo, hi - 1)
    } else {
        hi
    }
}

/// The metric of the line `lo..hi` (a final carriage return dropped): the
/// part before the first `|` is split at `:`; the key is what precedes the
/// first `:`, the value what follows it up to the next `:`. A line without
/// `:` there gives none.
pub open spec fn line_metric(s: Seq<u8>, lo: int, hi: int) -> Option<(Seq<u8>, Seq<u8>)> {
    let e = if hi > lo && s[hi - 1] == CARRIAGE_RETURN {
        hi - 1
    } else {
        hi
    };
    let p = find_from(s, PIPE, lo, e);
    let c1 = find_from(s, COLON, lo, p);
    if c1 >= p {
        None
    } else {
        let c2 = find_from(s, COLON, c1 + 1, p);
        Some((s.subrange(lo, c1), s.subrange(c1 + 1, c2)))
    }
}

pub open spec fn option_seq<T>(o: Option<T>) -> Seq<T> {
    match o {
        Some(x) => seq![x],
        None => Seq::empty(),
    }
}

/// The metrics of the lines of `lo..hi`, in order.
pub open spec fn metrics_between(s: Seq<u8>, lo: int, hi: int) -> Seq<(Seq<u8>, Seq<u8>)>
    decreases hi - lo + 1,
{
    if lo > hi {
        Seq::empty()
    } else {
        let j = find_from(s, NEWLINE, lo, hi);
        let here = option_seq(line_metric(s, lo, j));
        if lo <= j < hi {
            here + metrics_between(s, j + 1, hi)
        } else {
            here
        }
    }
}

/// The metrics of a received text: whitespace at its ends dropped, then line by line.
pub open spec fn metrics_of(s: Seq<u8>) -> Seq<(Seq<u8>, Seq<u8>)> {
    let lo = trim_lo(s, 0, s.len() as int);
    metrics_between(s, lo, trim_hi(s, lo, s.len() as int))
}

/// The first position in `lo..hi` of `b`, or `hi`.
fn find_byte(s: &[u8], b: u8, lo: usize, hi: usize) -> (r: usize)
    requires
        lo <= hi <= s@.len(),
    ensures
        r == find_from(s@, b, lo as int, hi as int),
        lo <= r <= hi,
{
    let mut k = lo;
    while k < hi
        invariant
            lo <= k <= hi <= s@.len(),
            find_from(s@, b, k as int, hi as int) == find_from(s@, b, lo as int, hi as int),
        decreases hi - k,
    {
        if s[k] == b {
            return k;
        }
        k = k + 1;
    }
    k
}

fn space_at(b: u8) -> (r: bool)
    ensures
        r == is_space(b),
{
    b == 9 || b == 10 || b == 11 || b == 12 || b == 13 || b == 32
}

/// The metric of the line `lo..hi` of `s`, if it holds one.
fn parse_line(s: &[u8], lo: usize, hi: usize) -> (r: Option<Metric>)
    requires
        lo <= hi <= s@.len(),
    ensures
        r matches Some(m) ==> line_metric(s@, lo as int, hi as int) == Some(m@),
        r is None ==> line_metric(s@, lo as int, hi as int) is None,
{
    let e = if hi > lo && s[hi - 1] == CARRIAGE_RETURN {
        hi - 1
    } else {
        hi
    };
    let p = find_byte(s, PIPE, lo, e);
    let c1 = find_byte(s, COLON, lo, p);
    if c1 >= p {
        None
    } else {
        let c2 = find_byte(s, COLON, c1 + 1, p);
        let key = slice_to_vec(slice_subrange(s, lo, c1));
        let value = slice_to_vec(slice_subrange(s, c1 + 1, c2));
        Some(Metric { key, value })
    }
}

/// Parses received text into its metrics, in the order of its lines.
pub fn parse_metrics(s: &[u8]) -> (r: Vec<Metric>)
    ensures
        r@.map_values(|m: Metric| m@) == metrics_of(s@),
{
    let n = s.len();
    let mut lo: usize = 0;
    while lo < n && space_at(s[lo])
        invariant
            lo <= n == s@.len(),
            trim_lo(s@, lo as int, n as int) == trim_lo(s@, 0, n as int),
        decreases n - lo,
    {
        lo = lo + 1;
    }
    let mut hi: usize = n;
    while hi > lo && space_at(s[hi - 1])
        invariant
            lo <= hi <= n == s@.len(),
            trim_lo(s@, 0, n as int) == lo,
            trim_hi(s@, lo as int, hi as int) == trim_hi(s@, lo as int, n as int),
        decreases hi,
    {
        hi = hi - 1;
    }
    let ghost whole = metrics_of(s@);
    let mut out: Vec<Metric> = Vec::new();
    let mut i: usize = lo;
    let mut more = true;
    while more
        invariant
            lo <= hi <= n == s@.len(),
            lo <= i <= hi,
            whole == metrics_between(s@, lo as int, hi as int),
            more ==> out@.map_values(|m: Metric| m@) + metrics_between(s@, i as int, hi as int)
                == whole,
            !more ==> out@.map_values(|m: Metric| m@) == whole,
        decreases hi - i + (if more { 1int } else { 0 }),
    {
        let j = find_byte(s, NEWLINE, i, hi);
        let here = parse_line(s, i, j);
        let ghost before = out@.map_values(|m: Metric| m@);
        match here {
            Some(m) => {
                out.push(m);
                assert(out@.map_values(|m: Metric| m@) =~= before + option_seq(
                    line_metric(s@, i as int, j as int),
                ));
            },
            None => {
                assert(out@.map_values(|m: Metric| m@) =~= before + option_seq(
                    line_metric(s@, i as int, j as int),
                ));
            },
        }
        if j < hi {
            assert(metrics_between(s@, i as int, hi as int) == option_seq(
                line_metric(s@, i as int, j as int),
            ) + metrics_between(s@, j + 1, hi as int));
            assert(before + metrics_between(s@, i as int, hi as int) =~= out@.map_values(
                |m: Metric| m@,
            ) + metrics_between(s@, j + 1, hi as int));
            i = j + 1;
        } else {
            more = false;
        }
    }
    out
}

/// The text received on the metric channel since it was last drained.
pub struct MetricBuffer {
    pub data: Vec<u8>,
}

impl MetricBuffer {
    /// An empty buffer.
    pub fn new() -> (r: MetricBuffer)
        ensures
            r.data@ == Seq::<u8>::empty(),
    {
        MetricBuffer { data: Vec::new() }
    }

    /// Appends one received datagram.
    pub fn push_datagram(&mut self, datagram: &[u8])
        ensures
            final(self).data@ == old(self).data@ + datagram@,
    {
        let mut k: usize = 0;
        while k < datagram.len()
            invariant
                k <= datagram@.len(),
                self.data@ == old(self).data@ + datagram@.subrange(0, k as int),
            decreases datagram@.len() - k,
        {
            self.data.push(datagram[k]);
            k = k + 1;
        }
        assert(datagram@.subrange(0, datagram@.len() as int) =~= datagram@);
    }

    /// Takes the metrics received so far and empties the buffer, so that
    /// the next drain sees only what arrives after this one.
    pub fn drain(&mut self) -> (r: Vec<Metric>)
        ensures
            r@.map_values(|m: Metric| m@) == metrics_of(old(self).data@),
            final(self).data@ == Seq::<u8>::empty(),
    {
        let r = parse_metrics(self.data.as_slice());
        self.data = Vec::new();
        r
    }
}

/// The gauge type letter that every sent line carries.
pub const GAUGE: u8 = 103;

/// The line that sends one metric: `key:value|g` and a newline.
pub open spec fn line_bytes(m: (Seq<u8>, Seq<u8>)) -> Seq<u8> {
    m.0 + seq![COLON] + m.1 + seq![PIPE, GAUGE, NEWLINE]
}

/// The text that sends the metrics `ms`, one line each, in order.
pub open spec fn encode_all(ms: Seq<(Seq<u8>, Seq<u8>)>) -> Seq<u8>
    decreases ms.len(),
{
    if ms.len() == 0 {
        Seq::empty()
    } else {
        line_bytes(ms[0]) + encode_all(ms.drop_first())
    }
}

/// A key or value that the line format carries unchanged: no `:`, `|` or newline.
pub open spec fn plain_field(x: Seq<u8>) -> bool {
    forall|i: int| 0 <= i < x.len() ==> x[i] != COLON && x[i] != PIPE && x[i] != NEWLINE
}

/// A metric that survives the trip: plain fields, and a key that starts
/// with something other than whitespace.
pub open spec fn sendable(m: (Seq<u8>, Seq<u8>)) -> bool {
    plain_field(m.0) && plain_field(m.1) && m.0.len() > 0 && !is_space(m.0[0])
}

proof fn lemma_encode_snoc(ms: Seq<(Seq<u8>, Seq<u8>)>, m: (Seq<u8>, Seq<u8>))
    ensures
        encode_all(ms.push(m)) == encode_all(ms) + line_bytes(m),
    decreases ms.len(),
{
    if ms.len() == 0 {
        assert(ms.push(m).drop_first() =~= Seq::<(Seq<u8>, Seq<u8>)>::empty());
        assert(ms.push(m)[0] == m);
        assert(encode_all(Seq::<(Seq<u8>, Seq<u8>)>::empty()) == Seq::<u8>::empty());
        assert(line_bytes(m) + Seq::<u8>::empty() =~= line_bytes(m));
        assert(Seq::<u8>::empty() + line_bytes(m) =~= line_bytes(m));
    } else {
        assert(ms.push(m).drop_first() =~= ms.drop_first().push(m));
        assert(ms.push(m)[0] == ms[0]);
        lemma_encode_snoc(ms.drop_first(), m);
        assert(line_bytes(ms[0]) + (encode_all(ms.drop_first()) + line_bytes(m)) =~= (line_bytes(
            ms[0],
        ) + encode_all(ms.drop_first())) + line_bytes(m));
    }
}

proof fn lemma_find_absent(s: Seq<u8>, b: u8, lo: int, hi: int)
    requires
        lo <= hi <= s.len(),
        0 <= lo,
        forall|i: int| lo <= i < hi ==> s[i] != b,
    ensures
        find_from(s, b, lo, hi) == hi,
    decreases hi - lo,
{
    if lo < hi {
        lemma_find_absent(s, b, lo + 1, hi);
    }
}

proof fn lemma_find_at(s: Seq<u8>, b: u8, lo: int, k: int, hi: int)
    requires
        0 <= lo <= k < hi <= s.len(),
        s[k] == b,
        forall|i: int| lo <= i < k ==> s[i] != b,
    ensures
        find_from(s, b, lo, hi) == k,
    decreases k - lo,
{
    if lo < k {
        lemma_find_at(s, b, lo + 1, k, hi);
    }
}

/// The metrics of the encoded suffix of `s` that starts at `off`.
proof fn lemma_decode_from(s: Seq<u8>, off: int, ms: Seq<(Seq<u8>, Seq<u8>)>)
    requires
        0 <= off <= s.len(),
        ms.len() > 0,
        s.subrange(off, s.len() as int) == encode_all(ms),
        forall|i: int| 0 <= i < ms.len() ==> sendable(#[trigger] ms[i]),
    ensures
        metrics_between(s, off, s.len() - 1) == ms,
    decreases ms.len(),
{
    let n = s.len() as int;
    let hi = n - 1;
    let m = ms[0];
    assert(sendable(m));
    let l = line_bytes(m);
    let rest = ms.drop_first();
    let kl = m.0.len() as int;
    let vl = m.1.len() as int;
    assert(l.len() == kl + vl + 4);
    assert(encode_all(ms) == l + encode_all(rest));
    assert forall|i: int| 0 <= i < l.len() implies s[off + i] == l[i] by {
        assert(s.subrange(off, n)[i] == s[off + i]);
        assert((l + encode_all(rest))[i] == l[i]);
    }
    let c1 = off + kl;
    let p = c1 + 1 + vl;
    let j = p + 2;
    assert(s[c1] == COLON) by {
        assert(l[kl] == COLON);
    }
    assert(s[p] == PIPE) by {
        assert(l[kl + 1 + vl] == PIPE);
    }
    assert(s[j - 1] == GAUGE) by {
        assert(l[kl + 2 + vl] == GAUGE);
    }
    assert(s[j] == NEWLINE) by {
        assert(l[kl + 3 + vl] == NEWLINE);
    }
    assert forall|i: int| off <= i < c1 implies s[i] != COLON && s[i] != PIPE && s[i] != NEWLINE by {
        assert(s[i] == l[i - off]);
        assert(l[i - off] == m.0[i - off]);
    }
    assert forall|i: int| c1 < i < p implies s[i] != COLON && s[i] != PIPE && s[i] != NEWLINE by {
        assert(s[i] == l[i - off]);
        assert(l[i - off] == m.1[i - off - kl - 1]);
    }
    assert forall|i: int| off <= i < j implies s[i] != NEWLINE by {
        assert(s[i] == l[i - off]);
    }
    if rest.len() == 0 {
        assert(encode_all(rest) == Seq::<u8>::empty());
        assert(j == hi);
        lemma_find_absent(s, NEWLINE, off, hi);
    } else {
        assert(j < hi) by {
            assert(encode_all(rest) == line_bytes(rest[0]) + encode_all(rest.drop_first()));
        }
        lemma_find_at(s, NEWLINE, off, j, hi);
    }
    assert(find_from(s, NEWLINE, off, hi) == j);
    lemma_find_at(s, PIPE, off, p, j);
    lemma_find_at(s, COLON, off, c1, p);
    lemma_find_absent(s, COLON, c1 + 1, p);
    assert(s.subrange(off, c1) =~= m.0) by {
        assert forall|i: int| 0 <= i < kl implies s.subrange(off, c1)[i] == m.0[i] by {
            assert(s[off + i] == l[i]);
        }
    }
    assert(s.subrange(c1 + 1, p) =~= m.1) by {
        assert forall|i: int| 0 <= i < vl implies s.subrange(c1 + 1, p)[i] == m.1[i] by {
            assert(s[c1 + 1 + i] == l[kl + 1 + i]);
        }
    }
    assert(line_metric(s, off, j) == Some(m));
    if rest.len() == 0 {
        assert(metrics_between(s, off, hi) =~= seq![m]);
        assert(ms =~= seq![m]);
    } else {
        assert(s.subrange(j + 1, n) =~= encode_all(rest)) by {
            assert forall|i: int| 0 <= i < n - j - 1 implies s.subrange(j + 1, n)[i] == encode_all(rest)[i] by {
                assert(s.subrange(off, n)[l.len() + i] == s[j + 1 + i]);
                assert((l + encode_all(rest))[l.len() + i] == encode_all(rest)[i]);
            }
        }
        assert forall|i: int| 0 <= i < rest.len() implies sendable(#[trigger] rest[i]) by {
            assert(rest[i] == ms[i + 1]);
        }
        lemma_decode_from(s, j + 1, rest);
        assert(ms =~= seq![m] + rest);
    }
}

/// What a sender encodes, the receiver parses back: the same metrics, in
/// the same order.
pub proof fn lemma_encode_then_parse(ms: Seq<(Seq<u8>, Seq<u8>)>)
    requires
        forall|i: int| 0 <= i < ms.len() ==> sendable(#[trigger] ms[i]),
    ensures
        metrics_of(encode_all(ms)) == ms,
{
    let s = encode_all(ms);
    let n = s.len() as int;
    if ms.len() == 0 {
        assert(metrics_between(s, 0, 0) =~= Seq::<(Seq<u8>, Seq<u8>)>::empty());
        assert(ms =~= Seq::<(Seq<u8>, Seq<u8>)>::empty());
    } else {
        let m = ms[0];
        assert(sendable(m));
        assert(s == line_bytes(m) + encode_all(ms.drop_first()));
        assert(s[0] == m.0[0]);
        assert(trim_lo(s, 0, n) == 0);
        let last = ms[ms.len() - 1];
        assert(ms =~= ms.drop_last().push(last));
        lemma_encode_snoc(ms.drop_last(), last);
        let lb = line_bytes(last);
        assert(s[n - 1] == lb[lb.len() - 1]);
        assert(s[n - 2] == lb[lb.len() - 2]);
        assert(trim_hi(s, 0, n) == n - 1) by {
            assert(trim_hi(s, 0, n - 1) == n - 1);
        }
        assert(s.subrange(0, n) =~= s);
        lemma_decode_from(s, 0, ms);
    }
}

/// Encodes metrics as lines of `key:value|g`, the form the channel carries.
pub fn encode_metrics(ms: &Vec<Metric>) -> (r: Vec<u8>)
    ensures
        r@ == encode_all(ms@.map_values(|m: Metric| m@)),
{
    let ghost mv = ms@.map_values(|m: Metric| m@);
    let mut out: Vec<u8> = Vec::new();
    let mut i: usize = 0;
    while i < ms.len()
        invariant
            i <= ms@.len(),
            mv == ms@.map_values(|m: Metric| m@),
            out@ == encode_all(mv.subrange(0, i as int)),
        decreases ms@.len() - i,
    {
        let m = &ms[i];
        let ghost before = out@;
        append_bytes(&mut out, m.key.as_slice());
        out.push(COLON);
        append_bytes(&mut out, m.value.as_slice());
        out.push(PIPE);
        out.push(GAUGE);
        out.push(NEWLINE);
        proof {
            assert(mv[i as int] == m@);
            assert(out@ =~= before + line_bytes(m@));
            assert(mv.subrange(0, i + 1) =~= mv.subrange(0, i as int).push(mv[i as int]));
            lemma_encode_snoc(mv.subrange(0, i as int), mv[i as int]);
        }
        i = i + 1;
    }
    assert(mv.subrange(0, i as int) =~= mv);
    out
}

fn append_bytes(out: &mut Vec<u8>, b: &[u8])
    ensures
        final(out)@ == old(out)@ + b@,
{
    let mut k: usize = 0;
    while k < b.len()
        invariant
            k <= b@.len(),
            out@ == old(out)@ + b@.subrange(0, k as int),
        decreases b@.len() - k,
    {
        out.push(b[k]);
        k = k + 1;
    }
    assert(b@.subrange(0, b@.len() as int) =~= b@);
}

} // verus!
