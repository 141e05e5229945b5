//! Character-sequence scanning primitives shared by the parser and renderer.
//!
//! All story markup recognized by this crate is delimited by one- or
//! two-character tokens (`::`, `[[`, `]]`, `->`, `''`, `//`, newlines), so the
//! whole grammar rests on two searches: the first occurrence of a single
//! character and the first occurrence of an adjacent character pair.

use vstd::prelude::*;
use vstd::string::StrSliceExecFns;

verus! {

/// A vector of characters models the same sequence under `deep_view` as
/// under `view`.
pub broadcast proof fn lemma_vec_char_deep_view(v: Vec<char>)
    ensures
        #[trigger] v.deep_view() == v@,
{
    assert(v.deep_view() =~= v@);
}

/// A single character `c` occurs at index `i` of `s`.
pub open spec fn match1_at(s: Seq<char>, c: char, i: int) -> bool {
    0 <= i < s.len() && s[i] == c
}

/// The character pair `a`, `b` occurs at indices `i`, `i + 1` of `s`.
pub open spec fn match2_at(s: Seq<char>, a: char, b: char, i: int) -> bool {
    0 <= i && i + 2 <= s.len() && s[i] == a && s[i + 1] == b
}

/// Index of the first occurrence of `c` in `s` at or after `from`.
pub open spec fn find1(s: Seq<char>, c: char, from: nat) -> Option<nat>
    decreases s.len() - from,
{
    if from >= s.len() {
        None
    } else if s[from as int] == c {
        Some(from)
    } else {
        find1(s, c, (from + 1) as nat)
    }
}

/// Index of the first occurrence of the pair `a`, `b` in `s` at or after `from`.
pub open spec fn find2(s: Seq<char>, a: char, b: char, from: nat) -> Option<nat>
    decreases s.len() - from,
{
    if from + 2 > s.len() {
        None
    } else if s[from as int] == a && s[from as int + 1] == b {
        Some(from)
    } else {
        find2(s, a, b, (from + 1) as nat)
    }
}

/// What `find1` returns: the first match at or after `from`, if any.
pub proof fn lemma_find1_props(s: Seq<char>, c: char, from: nat)
    ensures
        match find1(s, c, from) {
            Some(i) => from <= i && match1_at(s, c, i as int) && (forall|k: int|
                from <= k < i ==> !match1_at(s, c, k)),
            None => forall|k: int| from <= k ==> !match1_at(s, c, k),
        },
    decreases s.len() - from,
{
    if from >= s.len() {
    } else if s[from as int] == c {
    } else {
        lemma_find1_props(s, c, (from + 1) as nat);
    }
}

/// What `find2` returns: the first pair match at or after `from`, if any.
pub proof fn lemma_find2_props(s: Seq<char>, a: char, b: char, from: nat)
    ensures
        match find2(s, a, b, from) {
            Some(i) => from <= i && match2_at(s, a, b, i as int) && (forall|k: int|
                from <= k < i ==> !match2_at(s, a, b, k)),
            None => forall|k: int| from <= k ==> !match2_at(s, a, b, k),
        },
    decreases s.len() - from,
{
    if from + 2 > s.len() {
    } else if s[from as int] == a && s[from as int + 1] == b {
    } else {
        lemma_find2_props(s, a, b, (from + 1) as nat);
    }
}

/// First occurrence of `c` in `v` at or after `from`, by linear scan.
pub fn find1_exec(v: &Vec<char>, c: char, from: usize) -> (r: Option<usize>)
    ensures
        match r {
            Some(i) => find1(v@, c, from as nat) == Some(i as nat),
            None => find1(v@, c, from as nat) is None,
        },
{
    let mut i: usize = from;
    while i < v.len()
        invariant
            from <= i,
            find1(v@, c, from as nat) == find1(v@, c, i as nat),
        decreases v.len() - i,
    {
        if v[i] == c {
            return Some(i);
        }
        i = i + 1;
    }
    None
}

/// First occurrence of the pair `a`, `b` in `v` at or after `from`.
pub fn find2_exec(v: &Vec<char>, a: char, b: char, from: usize) -> (r: Option<usize>)
    ensures
        match r {
            Some(i) => find2(v@, a, b, from as nat) == Some(i as nat),
            None => find2(v@, a, b, from as nat) is None,
        },
{
    if v.len() < 2 {
        return None;
    }
    let mut i: usize = from;
    while i < v.len() - 1
        invariant
            2 <= v.len(),
            from <= i,
            find2(v@, a, b, from as nat) == find2(v@, a, b, i as nat),
        decreases v.len() - i,
    {
        if v[i] == a && v[i + 1] == b {
            return Some(i);
        }
        i = i + 1;
    }
    None
}

/// Relies on String::push: appends exactly the one character.
#[verifier::external_body]
fn push_char(s: &mut String, c: char)
    ensures
        final(s)@ == old(s)@.push(c),
{
    s.push(c);
}

/// The characters of `s`, in order, as a vector.
pub fn chars_of(s: &str) -> (v: Vec<char>)
    ensures
        v@ == s@,
{
    let n = s.unicode_len();
    let mut v: Vec<char> = Vec::new();
    let mut i: usize = 0;
    while i < n
        invariant
            n == s@.len(),
            i <= n,
            v@ == s@.take(i as int),
        decreases n - i,
    {
        let c = s.get_char(i);
        v.push(c);
        proof {
            assert(v@ =~= s@.take(i + 1));
        }
        i = i + 1;
    }
    proof {
        assert(v@ =~= s@);
    }
    v
}

/// The characters of `v`, in order, as an owned string.
pub fn string_of(v: &Vec<char>) -> (s: String)
    ensures
        s@ == v@,
{
    let mut s = String::new();
    let mut i: usize = 0;
    while i < v.len()
        invariant
            i <= v.len(),
            s@ == v@.take(i as int),
        decreases v.len() - i,
    {
        push_char(&mut s, v[i]);
        proof {
            assert(s@ =~= v@.take(i + 1));
        }
        i = i + 1;
    }
    proof {
        assert(s@ =~= v@);
    }
    s
}

/// Whether two character vectors hold the same characters.
pub fn chars_eq(a: &Vec<char>, b: &Vec<char>) -> (r: bool)
    ensures
        r == (a@ == b@),
{
    if a.len() != b.len() {
        return false;
    }
    let mut i: usize = 0;
    while i < a.len()
        invariant
            a@.len() == b@.len(),
            i <= a@.len(),
            forall|k: int| 0 <= k < i ==> a@[k] == b@[k],
        decreases a.len() - i,
    {
        if a[i] != b[i] {
            return false;
        }
        i = i + 1;
    }
    proof {
        assert(a@ =~= b@);
    }
    true
}

/// Whether two string slices hold the same characters.
pub fn str_eq(a: &str, b: &str) -> (r: bool)
    ensures
        r == (a@ == b@),
{
    let va = chars_of(a);
    let vb = chars_of(b);
    chars_eq(&va, &vb)
}

/// Appends `v[a..b]` to `out`.
pub fn push_range(out: &mut Vec<char>, v: &Vec<char>, a: usize, b: usize)
    requires
        a <= b <= v@.len(),
    ensures
        final(out)@ == old(out)@ + v@.subrange(a as int, b as int),
{
    let ghost out0 = out@;
    let mut k: usize = a;
    while k < b
        invariant
            a <= k <= b <= v@.len(),
            out@ == out0 + v@.subrange(a as int, k as int),
        decreases b - k,
    {
        out.push(v[k]);
        proof {
            assert(out@ =~= out0 + v@.subrange(a as int, k + 1));
        }
        k = k + 1;
    }
}

/// The characters `v[a..b]` as a fresh vector.
pub fn sub_chars(v: &Vec<char>, a: usize, b: usize) -> (r: Vec<char>)
    requires
        a <= b <= v@.len(),
    ensures
        r@ == v@.subrange(a as int, b as int),
{
    let mut out: Vec<char> = Vec::new();
    push_range(&mut out, v, a, b);
    proof {
        assert(out@ =~= v@.subrange(a as int, b as int));
    }
    out
}

/// `s` with every occurrence of the pair `a`, `b` at or after `from` replaced
/// by `rep`, scanning left to right without rescanning replacements.
pub open spec fn replace2(s: Seq<char>, a: char, b: char, rep: Seq<char>, from: nat) -> Seq<char>
    decreases s.len() - from
        via replace2_decreases
{
    match find2(s, a, b, from) {
        None => s.skip(from as int),
        Some(i) => s.subrange(from as int, i as int) + rep + replace2(
            s,
            a,
            b,
            rep,
            (i + 2) as nat,
        ),
    }
}

#[via_fn]
proof fn replace2_decreases(s: Seq<char>, a: char, b: char, rep: Seq<char>, from: nat) {
    lemma_find2_props(s, a, b, from);
}

/// `v` with every occurrence of the pair `a`, `b` replaced by `rep`.
pub fn replace2_exec(v: &Vec<char>, a: char, b: char, rep: &Vec<char>) -> (r: Vec<char>)
    ensures
        r@ == replace2(v@, a, b, rep@, 0),
{
    let mut out: Vec<char> = Vec::new();
    let mut pos: usize = 0;
    loop
        invariant
            pos <= v@.len(),
            replace2(v@, a, b, rep@, 0) == out@ + replace2(v@, a, b, rep@, pos as nat),
        decreases v@.len() - pos,
    {
        let n = v.len();
        match find2_exec(v, a, b, pos) {
            None => {
                proof {
                    assert(replace2(v@, a, b, rep@, pos as nat) == v@.skip(pos as int));
                }
                push_range(&mut out, v, pos, v.len());
                proof {
                    assert(v@.subrange(pos as int, v@.len() as int) =~= v@.skip(pos as int));
                    assert(out@ =~= replace2(v@, a, b, rep@, 0));
                }
                return out;
            },
            Some(i) => {
                proof {
                    lemma_find2_props(v@, a, b, pos as nat);
                    assert(match2_at(v@, a, b, i as int));
                    assert(pos <= i && i + 2 <= n);
                }
                let ghost mid = out@;
                push_range(&mut out, v, pos, i);
                push_range(&mut out, rep, 0, rep.len());
                proof {
                    assert(rep@.subrange(0, rep@.len() as int) =~= rep@);
                    assert(out@ =~= mid + v@.subrange(pos as int, i as int) + rep@);
                    assert(mid + v@.subrange(pos as int, i as int) + rep@ + replace2(
                        v@,
                        a,
                        b,
                        rep@,
                        (i + 2) as nat,
                    ) =~= mid + replace2(v@, a, b, rep@, pos as nat));
                }
                pos = i + 2;
            },
        }
    }
}

} // verus!
