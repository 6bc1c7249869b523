//! Byte strings as lines of text: their order and how a stream splits into lines.

use vstd::prelude::*;

verus! {

/// The line feed byte.
pub const LF: u8 = 10;

/// The carriage return byte.
pub const CR: u8 = 13;

/// `a` sorts strictly before `b` in the byte-wise lexicographic order.
pub open spec fn lex_lt(a: Seq<u8>, b: Seq<u8>) -> bool
    decreases a.len(),
{
    if b.len() == 0 {
        false
    } else if a.len() == 0 {
        true
    } else if a[0] != b[0] {
        a[0] < b[0]
    } else {
        lex_lt(a.drop_first(), b.drop_first())
    }
}

/// `a` sorts before `b` or equals it.
pub open spec fn lex_le(a: Seq<u8>, b: Seq<u8>) -> bool {
    !lex_lt(b, a)
}

/// No byte string sorts before itself.
pub proof fn lemma_lex_irreflexive(a: Seq<u8>)
    ensures
        !lex_lt(a, a),
    decreases a.len(),
{
    if a.len() > 0 {
        lemma_lex_irreflexive(a.drop_first());
    }
}

/// Two different byte strings are ordered one way or the other.
pub proof fn lemma_lex_total(a: Seq<u8>, b: Seq<u8>)
    ensures
        lex_lt(a, b) || lex_lt(b, a) || a == b,
        !(lex_lt(a, b) && lex_lt(b, a)),
    decreases a.len(),
{
    if a.len() == 0 || b.len() == 0 {
        if a.len() == 0 && b.len() == 0 {
            assert(a =~= b);
        }
    } else if a[0] == b[0] {
        lemma_lex_total(a.drop_first(), b.drop_first());
        if a.drop_first() == b.drop_first() {
            assert(a =~= seq![a[0]] + a.drop_first());
            assert(b =~= seq![b[0]] + b.drop_first());
        }
    }
}

/// The strict order is transitive.
pub proof fn lemma_lex_transitive(a: Seq<u8>, b: Seq<u8>, c: Seq<u8>)
    requires
        lex_lt(a, b),
        lex_lt(b, c),
    ensures
        lex_lt(a, c),
    decreases a.len(),
{
    if a.len() > 0 && a[0] == b[0] && b[0] == c[0] {
        lemma_lex_transitive(a.drop_first(), b.drop_first(), c.drop_first());
    }
}

/// `lex_le` is transitive.
pub proof fn lemma_lex_le_transitive(a: Seq<u8>, b: Seq<u8>, c: Seq<u8>)
    requires
        lex_le(a, b),
        lex_le(b, c),
    ensures
        lex_le(a, c),
{
    lemma_lex_total(a, b);
    lemma_lex_total(b, c);
    if lex_lt(c, a) {
        if a == b {
        } else if b == c {
        } else {
            lemma_lex_transitive(c, a, b);
            lemma_lex_total(b, c);
        }
    }
}

/// A strictly smaller string stays strictly smaller than anything that the
/// larger one does not exceed.
pub proof fn lemma_lex_lt_le(a: Seq<u8>, b: Seq<u8>, c: Seq<u8>)
    requires
        lex_lt(a, b),
        lex_le(b, c),
    ensures
        lex_lt(a, c),
{
    lemma_lex_total(b, c);
    if b != c {
        lemma_lex_transitive(a, b, c);
    }
}

/// Every line of `s` is at most each line that comes after it.
pub open spec fn ascending(s: Seq<Seq<u8>>) -> bool {
    forall|a: int, b: int| 0 <= a < b < s.len() ==> lex_le(#[trigger] s[a], #[trigger] s[b])
}

/// Every line of `s` is at most the line that follows it.
pub open spec fn ascending_stepwise(s: Seq<Seq<u8>>) -> bool {
    forall|k: int| 0 <= k && k + 1 < s.len() ==> lex_le(#[trigger] s[k], s[k + 1])
}

/// A sequence whose neighbours are in order is in order throughout, and the
/// other way round.
pub proof fn lemma_ascending_stepwise(s: Seq<Seq<u8>>)
    ensures
        ascending(s) <==> ascending_stepwise(s),
{
    if ascending_stepwise(s) {
        assert forall|a: int, b: int| 0 <= a < b < s.len() implies lex_le(
            #[trigger] s[a],
            #[trigger] s[b],
        ) by {
            lemma_stepwise_reaches(s, a, b);
        }
    }
}

proof fn lemma_stepwise_reaches(s: Seq<Seq<u8>>, a: int, b: int)
    requires
        ascending_stepwise(s),
        0 <= a < b < s.len(),
    ensures
        lex_le(s[a], s[b]),
    decreases b - a,
{
    if a + 1 < b {
        lemma_stepwise_reaches(s, a, b - 1);
        assert(lex_le(s[b - 1], s[b - 1 + 1]));
        lemma_lex_le_transitive(s[a], s[b - 1], s[b]);
    }
}

/// Compares two byte strings in the lexicographic order.
pub fn line_less(a: &[u8], b: &[u8]) -> (r: bool)
    ensures
        r == lex_lt(a@, b@),
{
    let mut i: usize = 0;
    proof {
        assert(a@.skip(0) =~= a@);
        assert(b@.skip(0) =~= b@);
    }
    while i < a.len() && i < b.len()
        invariant
            i <= a.len(),
            i <= b.len(),
            lex_lt(a@, b@) == lex_lt(a@.skip(i as int), b@.skip(i as int)),
        decreases a.len() - i,
    {
        if a[i] != b[i] {
            return a[i] < b[i];
        }
        proof {
            assert(a@.skip(i as int).drop_first() =~= a@.skip(i + 1));
            assert(b@.skip(i as int).drop_first() =~= b@.skip(i + 1));
        }
        i += 1;
    }
    i < b.len()
}

/// The number of bytes before the first byte `b` of `s`; the length of `s`
/// where it holds none.
pub open spec fn first_byte(s: Seq<u8>, b: u8) -> nat
    decreases s.len(),
{
    if s.len() == 0 || s[0] == b {
        0
    } else {
        1 + first_byte(s.drop_first(), b)
    }
}

/// The number of bytes before the first line feed of `s`; the length of `s`
/// where it holds none.
pub open spec fn line_end(s: Seq<u8>) -> nat {
    first_byte(s, LF)
}

/// A line without the carriage return that ended it, if one did.
pub open spec fn chomp(line: Seq<u8>) -> Seq<u8> {
    if line.len() > 0 && line.last() == CR {
        line.drop_last()
    } else {
        line
    }
}

/// The lines of a byte stream. A line ends at a line feed, or at a carriage
/// return followed by a line feed; neither belongs to the line. What follows
/// the last line feed is a line of its own unless it is empty, and a carriage
/// return at its end stays.
pub open spec fn split_lines(s: Seq<u8>) -> Seq<Seq<u8>>
    decreases s.len(),
{
    let k = line_end(s) as int;
    if s.len() == 0 {
        Seq::empty()
    } else if k >= s.len() {
        seq![s]
    } else {
        seq![chomp(s.take(k))] + split_lines(s.skip(k + 1))
    }
}

/// `first_byte` is the place of the first byte `b`.
pub proof fn lemma_first_byte(s: Seq<u8>, b: u8)
    ensures
        first_byte(s, b) <= s.len(),
        first_byte(s, b) < s.len() ==> s[first_byte(s, b) as int] == b,
        forall|j: int| 0 <= j < first_byte(s, b) ==> s[j] != b,
    decreases s.len(),
{
    if s.len() > 0 && s[0] != b {
        let rest = s.drop_first();
        lemma_first_byte(rest, b);
        assert forall|j: int| 0 <= j < first_byte(s, b) implies s[j] != b by {
            if j > 0 {
                assert(s[j] == rest[j - 1]);
            }
        }
    }
}

/// The first byte `b` of `s` is at `k` when there is one at `k` and none before.
pub proof fn lemma_first_byte_at(s: Seq<u8>, b: u8, k: int)
    requires
        0 <= k <= s.len(),
        forall|j: int| 0 <= j < k ==> s[j] != b,
        k < s.len() ==> s[k] == b,
    ensures
        first_byte(s, b) == k,
{
    lemma_first_byte(s, b);
    let e = first_byte(s, b) as int;
    if e < k {
        assert(s[e] == b);
    } else if k < e {
        assert(s[k] != b);
    }
}

/// A byte slice has no deeper content than its bytes.
pub proof fn lemma_bytes_deep_view(s: &[u8])
    ensures
        s.deep_view() == s@,
{
    assert(s.deep_view() =~= s@);
}

/// Splits a byte stream into its lines, which borrow from the stream.
pub fn lines_of<'a>(s: &'a [u8]) -> (ls: Vec<&'a [u8]>)
    ensures
        ls.deep_view() == split_lines(s@),
{
    let mut ls: Vec<&'a [u8]> = Vec::new();
    let mut start: usize = 0;
    let mut i: usize = 0;
    proof {
        assert(s@.skip(0) =~= s@);
        assert(ls.deep_view() =~= Seq::empty());
        assert(ls.deep_view() + split_lines(s@.skip(0)) =~= split_lines(s@));
    }
    while i < s.len()
        invariant
            start <= i <= s.len(),
            forall|j: int| start <= j < i ==> s@[j] != LF,
            ls.deep_view() + split_lines(s@.skip(start as int)) == split_lines(s@),
        decreases s.len() - i,
    {
        if s[i] == LF {
            let mut end = i;
            if end > start && s[end - 1] == CR {
                end = end - 1;
            }
            let line = vstd::slice::slice_subrange(s, start, end);
            let ghost before = ls.deep_view();
            ls.push(line);
            proof {
                let tail = s@.skip(start as int);
                let k = i - start;
                lemma_first_byte_at(tail, LF, k);
                assert(tail.take(k) =~= s@.subrange(start as int, i as int));
                assert(chomp(tail.take(k)) =~= line@);
                assert(tail.skip(k + 1) =~= s@.skip(i + 1));
                assert(line.deep_view() =~= line@);
            assert(ls.deep_view() =~= before.push(line@));
                assert(split_lines(tail) == seq![line@] + split_lines(s@.skip(i + 1)));
                assert(ls.deep_view() + split_lines(s@.skip(i + 1)) =~= before + split_lines(tail));
            }
            start = i + 1;
        }
        i += 1;
    }
    if start < s.len() {
        let line = vstd::slice::slice_subrange(s, start, s.len());
        let ghost before = ls.deep_view();
        ls.push(line);
        proof {
            let tail = s@.skip(start as int);
            lemma_first_byte_at(tail, LF, tail.len() as int);
            assert(tail =~= line@);
            assert(line.deep_view() =~= line@);
            assert(ls.deep_view() =~= before.push(line@));
            assert(split_lines(tail) =~= seq![tail]);
        }
    } else {
        proof {
            assert(s@.skip(start as int) =~= Seq::empty());
        }
    }
    ls
}

} // verus!
