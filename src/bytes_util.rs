//! Byte-sequence predicates shared by the route table and the HTTP inspector.
use vstd::prelude::*;

verus! {

/// `p` is a prefix of `s`.
pub open spec fn has_prefix(s: Seq<u8>, p: Seq<u8>) -> bool {
    p.len() <= s.len() && s.subrange(0, p.len() as int) == p
}

/// Byte-wise equality of two slices.
pub fn bytes_eq(a: &[u8], b: &[u8]) -> (r: bool)
    ensures
        r == (a@ == b@),
{
    if a.len() != b.len() {
        return false;
    }
    let mut i: usize = 0;
    while i < a.len()
        invariant
            a@.len() == b@.len(),
            i <= a@.len(),
            a@.subrange(0, i as int) == b@.subrange(0, i as int),
        decreases a@.len() - i,
    {
        if a[i] != b[i] {
            assert(a@.subrange(0, a@.len() as int)[i as int] != b@.subrange(0, b@.len() as int)[i as int]);
            assert(a@.subrange(0, a@.len() as int) =~= a@);
            assert(b@.subrange(0, b@.len() as int) =~= b@);
            return false;
        }
        assert(a@.subrange(0, i + 1) =~= a@.subrange(0, i as int).push(a@[i as int]));
        assert(b@.subrange(0, i + 1) =~= b@.subrange(0, i as int).push(b@[i as int]));
        i = i + 1;
    }
    assert(a@.subrange(0, i as int) =~= a@);
    assert(b@.subrange(0, i as int) =~= b@);
    true
}

/// Whether `s` begins with `p`.
pub fn bytes_start_with(s: &[u8], p: &[u8]) -> (r: bool)
    ensures
        r == has_prefix(s@, p@),
{
    if p.len() > s.len() {
        return false;
    }
    let mut i: usize = 0;
    while i < p.len()
        invariant
            p@.len() <= s@.len(),
            i <= p@.len(),
            s@.subrange(0, i as int) == p@.subrange(0, i as int),
        decreases p@.len() - i,
    {
        if s[i] != p[i] {
            assert(s@.subrange(0, p@.len() as int)[i as int] == s@[i as int]);
            assert(p@[i as int] != s@[i as int]);
            return false;
        }
        assert(s@.subrange(0, i + 1) =~= s@.subrange(0, i as int).push(s@[i as int]));
        assert(p@.subrange(0, i + 1) =~= p@.subrange(0, i as int).push(p@[i as int]));
        i = i + 1;
    }
    assert(p@.subrange(0, i as int) =~= p@);
    true
}

/// `needle` occurs in `hay` at position `i`.
pub open spec fn occurs_at(hay: Seq<u8>, needle: Seq<u8>, i: int) -> bool {
    0 <= i && i + needle.len() <= hay.len() && hay.subrange(i, i + needle.len()) == needle
}

/// `i` is the leftmost position at which `needle` occurs in `hay`.
pub open spec fn is_first_occurrence(hay: Seq<u8>, needle: Seq<u8>, i: int) -> bool {
    occurs_at(hay, needle, i) && forall|j: int| 0 <= j < i ==> !occurs_at(hay, needle, j)
}

/// `hay` with the leftmost occurrence of `needle` replaced by `rep`; `hay`
/// itself when `needle` does not occur.
pub open spec fn replace_first(hay: Seq<u8>, needle: Seq<u8>, rep: Seq<u8>) -> Seq<u8> {
    if exists|i: int| is_first_occurrence(hay, needle, i) {
        let i = choose|i: int| is_first_occurrence(hay, needle, i);
        hay.subrange(0, i) + rep + hay.subrange(i + needle.len(), hay.len() as int)
    } else {
        hay
    }
}

/// Whether `needle` occurs in `hay` at position `at`.
pub fn occurs_at_exec(hay: &[u8], needle: &[u8], at: usize) -> (r: bool)
    ensures
        r == occurs_at(hay@, needle@, at as int),
{
    if at > hay.len() || needle.len() > hay.len() - at {
        return false;
    }
    let mut k: usize = 0;
    while k < needle.len()
        invariant
            at + needle@.len() <= hay@.len() <= usize::MAX,
            k <= needle@.len(),
            forall|t: int| 0 <= t < k ==> hay@[at + t] == needle@[t],
        decreases needle@.len() - k,
    {
        assert(at + k < hay@.len());
        if hay[at + k] != needle[k] {
            assert(hay@.subrange(at as int, at + needle@.len())[k as int] != needle@[k as int]);
            return false;
        }
        k = k + 1;
    }
    assert(hay@.subrange(at as int, at + needle@.len()) =~= needle@);
    true
}

/// The leftmost position at which `needle` occurs in `hay`.
pub fn find_first(hay: &[u8], needle: &[u8]) -> (r: Option<usize>)
    ensures
        match r {
            Some(i) => is_first_occurrence(hay@, needle@, i as int),
            None => forall|j: int| !occurs_at(hay@, needle@, j),
        },
{
    let mut i: usize = 0;
    while i <= hay.len()
        invariant
            i <= hay@.len() + 1,
            forall|j: int| 0 <= j < i ==> !occurs_at(hay@, needle@, j),
        decreases hay@.len() + 1 - i,
    {
        if occurs_at_exec(hay, needle, i) {
            return Some(i);
        }
        if i == hay.len() {
            assert forall|j: int| !occurs_at(hay@, needle@, j) by {
                if j > i {
                    assert(j + needle@.len() > hay@.len());
                }
            }
            return None;
        }
        i = i + 1;
    }
    None
}

/// Appends `src[from..to]` to `out`.
pub fn push_range(out: &mut Vec<u8>, src: &[u8], from: usize, to: usize)
    requires
        from <= to <= src@.len(),
    ensures
        final(out)@ == old(out)@ + src@.subrange(from as int, to as int),
{
    let mut k: usize = from;
    while k < to
        invariant
            from <= k <= to <= src@.len(),
            out@ == old(out)@ + src@.subrange(from as int, k as int),
        decreases to - k,
    {
        out.push(src[k]);
        assert(src@.subrange(from as int, k + 1) =~= src@.subrange(from as int, k as int).push(src@[k as int]));
        k = k + 1;
    }
}

/// `hay` with the leftmost occurrence of `needle` replaced by `rep`.
pub fn replace_first_exec(hay: &[u8], needle: &[u8], rep: &[u8]) -> (r: Vec<u8>)
    ensures
        r@ == replace_first(hay@, needle@, rep@),
{
    let mut out: Vec<u8> = Vec::new();
    let n = hay.len();
    match find_first(hay, needle) {
        Some(i) => {
            assert(occurs_at(hay@, needle@, i as int));
            push_range(&mut out, hay, 0, i);
            push_range(&mut out, rep, 0, rep.len());
            push_range(&mut out, hay, i + needle.len(), hay.len());
            proof {
                let c = choose|c: int| is_first_occurrence(hay@, needle@, c);
                if c < i {
                } else if c > i {
                    assert(!occurs_at(hay@, needle@, i as int));
                }
                assert(rep@.subrange(0, rep@.len() as int) =~= rep@);
            }
        },
        None => {
            push_range(&mut out, hay, 0, hay.len());
            assert(hay@.subrange(0, hay@.len() as int) =~= hay@);
        },
    }
    out
}

} // verus!
