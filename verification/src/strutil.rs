//! String helpers for account paths: raw prefix matching and splitting a
//! colon-delimited path into its segments.

use vstd::prelude::*;

verus! {

/// Does `s` start with `p`, character for character?
pub open spec fn starts_with(s: Seq<char>, p: Seq<char>) -> bool {
    p.len() <= s.len() && s.subrange(0, p.len() as int) == p
}

/// The segments of `s` split on `':'`; an empty string yields one empty
/// segment, and every separator opens a new segment.
pub open spec fn split_colon(s: Seq<char>) -> Seq<Seq<char>>
    decreases s.len(),
{
    if s.len() == 0 {
        seq![Seq::empty()]
    } else if s[0] == ':' {
        seq![Seq::<char>::empty()] + split_colon(s.skip(1))
    } else {
        let rest = split_colon(s.skip(1));
        seq![seq![s[0]] + rest[0]] + rest.skip(1)
    }
}

pub proof fn lemma_split_colon_len(s: Seq<char>)
    ensures
        split_colon(s).len() >= 1,
    decreases s.len(),
{
    if s.len() != 0 {
        lemma_split_colon_len(s.skip(1));
    }
}

/// Splitting a string whose first separator stands at `k`: the head segment
/// is everything before `k`, and the rest splits on its own.
proof fn lemma_split_colon_at(s: Seq<char>, k: int)
    requires
        0 <= k <= s.len(),
        forall|j: int| 0 <= j < k ==> s[j] != ':',
        k < s.len() ==> s[k] == ':',
    ensures
        k == s.len() ==> split_colon(s) =~= seq![s],
        k < s.len() ==> split_colon(s) =~= seq![s.subrange(0, k)] + split_colon(
            s.skip(k + 1),
        ),
    decreases s.len(),
{
    if s.len() == 0 {
        assert(split_colon(s) =~~= seq![s]);
    } else if k == 0 {
        if k < s.len() {
            assert(s.skip(1) =~= s.skip(k + 1));
            assert(split_colon(s) =~~= seq![s.subrange(0, 0)] + split_colon(s.skip(1)));
        }
    } else {
        lemma_split_colon_at(s.skip(1), k - 1);
        lemma_split_colon_len(s.skip(1));
        if k == s.len() {
            assert(split_colon(s.skip(1)) =~~= seq![s.skip(1)]);
            assert(seq![s[0]] + s.skip(1) =~= s);
            assert(split_colon(s) =~~= seq![s]);
        } else {
            assert(s.skip(1).skip(k) =~= s.skip(k + 1));
            assert(seq![s[0]] + s.skip(1).subrange(0, k - 1) =~= s.subrange(0, k));
            lemma_split_colon_len(s.skip(k + 1));
            assert(split_colon(s) =~~= seq![s.subrange(0, k)] + split_colon(s.skip(k + 1)));
        }
    }
}

/// Does `s` start with `p`? Raw character-for-character prefix test.
pub fn starts_with_exec(s: &str, p: &str) -> (r: bool)
    ensures
        r == starts_with(s@, p@),
{
    let s_len = s.unicode_len();
    let p_len = p.unicode_len();
    if p_len > s_len {
        return false;
    }
    let mut i: usize = 0;
    while i < p_len
        invariant
            0 <= i <= p_len,
            p_len <= s_len,
            s_len == s@.len(),
            p_len == p@.len(),
            forall|j: int| 0 <= j < i ==> s@[j] == p@[j],
        decreases p_len - i,
    {
        if s.get_char(i) != p.get_char(i) {
            assert(s@.subrange(0, p@.len() as int)[i as int] != p@[i as int]);
            return false;
        }
        i += 1;
    }
    assert(s@.subrange(0, p@.len() as int) =~= p@);
    true
}

/// The segments of `s` split on `':'`.
pub fn split_colon_exec(s: &str) -> (r: Vec<String>)
    ensures
        r@.map_values(|t: String| t@) == split_colon(s@),
{
    let len = s.unicode_len();
    let mut out: Vec<String> = Vec::new();
    let mut start: usize = 0;
    let mut i: usize = 0;
    proof {
        assert(s@.skip(0) =~= s@);
    }
    while i < len
        invariant
            0 <= start <= i <= len,
            len == s@.len(),
            forall|j: int| start <= j < i ==> s@[j] != ':',
            split_colon(s@) =~~= out@.map_values(|t: String| t@) + split_colon(s@.skip(start as int)),
            split_colon(s@.skip(start as int)).len() >= 1,
        decreases len - i,
    {
        if s.get_char(i) == ':' {
            let seg = s.substring_char(start, i).to_owned();
            proof {
                let tail = s@.skip(start as int);
                lemma_split_colon_at(tail, i - start);
                assert(tail.subrange(0, i - start) =~= s@.subrange(start as int, i as int));
                assert(tail.skip(i - start + 1) =~= s@.skip(i + 1));
                lemma_split_colon_len(s@.skip(i + 1));
                assert((out@ + seq![seg])
                    .map_values(|t: String| t@) =~~= out@.map_values(|t: String| t@) + seq![seg@]);
            }
            out.push(seg);
            start = i + 1;
        }
        i += 1;
    }
    let seg = s.substring_char(start, len).to_owned();
    proof {
        let tail = s@.skip(start as int);
        lemma_split_colon_at(tail, (len - start) as int);
        assert(seg@ =~= tail);
    }
    out.push(seg);
    proof {
        assert(out@.map_values(|t: String| t@) =~~= split_colon(s@));
    }
    out
}

} // verus!
