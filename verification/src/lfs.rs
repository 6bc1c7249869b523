//! The paths in a listing of git-lfs, seen from the directory that is searched.

use crate::decode::lemma_cut_at_ascii;
use crate::lines::{first_byte, lemma_first_byte, lemma_first_byte_at};
use vstd::prelude::*;
use vstd::utf8::valid_utf8;

verus! {

/// The space byte.
pub const SP: u8 = 32;

/// Field `n` of a line whose fields are parted by single spaces, counted from
/// zero; empty where the line has no such field.
pub open spec fn field(line: Seq<u8>, n: nat) -> Seq<u8>
    decreases n,
{
    let k = first_byte(line, SP) as int;
    if n == 0 {
        line.take(k)
    } else if k >= line.len() {
        Seq::empty()
    } else {
        field(line.skip(k + 1), (n - 1) as nat)
    }
}

/// `s` without the occurrences of `pat`, found from left to right and not
/// overlapping. An empty `pat` occurs nowhere.
pub open spec fn remove_all(s: Seq<u8>, pat: Seq<u8>) -> Seq<u8>
    decreases s.len(),
{
    if pat.len() == 0 || s.len() == 0 {
        s
    } else if pat.is_prefix_of(s) {
        remove_all(s.skip(pat.len() as int), pat)
    } else {
        seq![s[0]] + remove_all(s.drop_first(), pat)
    }
}

/// The path that a line of the listing stands for. The listing names each
/// file from the top of the working tree, in its third field. A file below
/// the directory that is searched loses `prefix`, the way down to that
/// directory; any other file gets `cdup`, the way up to the top, in front.
pub open spec fn lfs_path(line: Seq<u8>, cdup: Seq<u8>, prefix: Seq<u8>) -> Seq<u8> {
    let path = field(line, 2);
    if prefix.is_prefix_of(path) {
        remove_all(path, prefix)
    } else {
        cdup + path
    }
}

/// The paths that the lines of a listing stand for.
pub open spec fn lfs_paths(lines: Seq<Seq<u8>>, cdup: Seq<u8>, prefix: Seq<u8>) -> Seq<Seq<u8>> {
    lines.map_values(|l: Seq<u8>| lfs_path(l, cdup, prefix))
}

/// A field of well-formed UTF-8 is well-formed UTF-8.
pub proof fn lemma_field_valid(line: Seq<u8>, n: nat)
    requires
        valid_utf8(line),
    ensures
        valid_utf8(field(line, n)),
    decreases n,
{
    let k = first_byte(line, SP) as int;
    lemma_first_byte(line, SP);
    if k < line.len() {
        lemma_cut_at_ascii(line, k);
        if n > 0 {
            lemma_field_valid(line.skip(k + 1), (n - 1) as nat);
        }
    } else {
        assert(line.take(k) =~= line);
    }
}

/// Well-formed UTF-8 stays well-formed when a piece that is well-formed
/// UTF-8 itself is taken out of it.
pub proof fn lemma_take_out_valid(a: Seq<u8>, p: Seq<u8>, b: Seq<u8>)
    requires
        valid_utf8(a + p + b),
        valid_utf8(p),
        p.len() > 0,
    ensures
        valid_utf8(a + b),
{
    let w = a + p + b;
    let at = a.len() as int;
    assert(w[at] == p[0]);
    vstd::utf8::is_char_boundary_iff_is_leading_byte(w, at);
    vstd::utf8::valid_utf8_split(w, at);
    assert(w.subrange(0, at) =~= a);
    let rest = w.subrange(at, w.len() as int);
    assert(rest =~= p + b);
    assert(rest.subrange(0, p.len() as int) =~= p);
    assert(rest.subrange(p.len() as int, rest.len() as int) =~= b);
    if !valid_utf8(b) {
        vstd::utf8::partial_valid_partial_invalid_utf8(rest, p.len() as int);
    }
    vstd::utf8::valid_utf8_concat(a, b);
}

/// Tells whether `s` starts with `pat`.
pub fn starts_with(s: &[u8], pat: &[u8]) -> (r: bool)
    ensures
        r == pat@.is_prefix_of(s@),
{
    if pat.len() > s.len() {
        return false;
    }
    let mut i: usize = 0;
    while i < pat.len()
        invariant
            i <= pat.len() <= s.len(),
            forall|j: int| 0 <= j < i ==> s@[j] == pat@[j],
        decreases pat.len() - i,
    {
        if s[i] != pat[i] {
            proof {
                assert(s@.subrange(0, pat.len() as int)[i as int] != pat@[i as int]);
            }
            return false;
        }
        i += 1;
    }
    proof {
        assert(pat@ =~= s@.subrange(0, pat.len() as int));
    }
    true
}

/// Picks field `n` of a line whose fields are parted by single spaces.
pub fn field_of<'a>(line: &'a [u8], n: usize) -> (f: &'a [u8])
    ensures
        f@ == field(line@, n as nat),
{
    let mut start: usize = 0;
    let mut left: usize = n;
    proof {
        assert(line@.skip(0) =~= line@);
    }
    loop
        invariant
            start <= line.len(),
            left <= n,
            field(line@, n as nat) == field(line@.skip(start as int), left as nat),
        decreases left,
    {
        let mut k: usize = start;
        while k < line.len() && line[k] != SP
            invariant
                start <= k <= line.len(),
                forall|j: int| start <= j < k ==> line@[j] != SP,
            decreases line.len() - k,
        {
            k += 1;
        }
        proof {
            lemma_first_byte_at(line@.skip(start as int), SP, k - start);
        }
        if left == 0 {
            let f = vstd::slice::slice_subrange(line, start, k);
            proof {
                assert(f@ =~= line@.skip(start as int).take(k - start));
            }
            return f;
        }
        if k >= line.len() {
            let f = vstd::slice::slice_subrange(line, k, k);
            proof {
                assert(f@ =~= Seq::<u8>::empty());
            }
            return f;
        }
        proof {
            assert(line@.skip(start as int).skip(k - start + 1) =~= line@.skip(k + 1));
        }
        start = k + 1;
        left = left - 1;
    }
}

/// Copies `s` without the occurrences of `pat`.
pub fn without_all(s: &[u8], pat: &[u8]) -> (out: Vec<u8>)
    ensures
        out@ == remove_all(s@, pat@),
        valid_utf8(s@) && valid_utf8(pat@) ==> valid_utf8(out@),
{
    if pat.len() == 0 {
        return vstd::slice::slice_to_vec(s);
    }
    let mut out: Vec<u8> = Vec::new();
    let mut i: usize = 0;
    proof {
        assert(s@.skip(0) =~= s@);
        assert(out@ + s@ =~= s@);
    }
    while i < s.len()
        invariant
            i <= s.len(),
            pat.len() > 0,
            out@ + remove_all(s@.skip(i as int), pat@) == remove_all(s@, pat@),
            valid_utf8(s@) && valid_utf8(pat@) ==> valid_utf8(out@ + s@.skip(i as int)),
        decreases s.len() - i,
    {
        let rest = vstd::slice::slice_subrange(s, i, s.len());
        proof {
            assert(rest@ =~= s@.skip(i as int));
        }
        if starts_with(rest, pat) {
            proof {
                let m = pat.len() as int;
                assert(rest@.skip(m) =~= s@.skip(i + m));
                if valid_utf8(s@) && valid_utf8(pat@) {
                    assert(out@ + pat@ + s@.skip(i + m) =~= out@ + s@.skip(i as int));
                    lemma_take_out_valid(out@, pat@, s@.skip(i + m));
                }
            }
            i += pat.len();
        } else {
            let ghost before = out@;
            out.push(s[i]);
            proof {
                assert(rest@.drop_first() =~= s@.skip(i + 1));
                assert(out@ + remove_all(s@.skip(i + 1), pat@) =~= before + (seq![s@[i as int]]
                    + remove_all(s@.skip(i + 1), pat@)));
                assert(out@ + s@.skip(i + 1) =~= before + s@.skip(i as int));
            }
            i += 1;
        }
    }
    proof {
        assert(s@.skip(s.len() as int) =~= Seq::<u8>::empty());
        assert(out@ + Seq::<u8>::empty() =~= out@);
    }
    out
}

} // verus!
