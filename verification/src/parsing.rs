//! Table extraction straight from a script's text, without tokenizing it
//! first.  The text is lowercased; every occurrence of the four letters
//! `from` is located left to right without overlap; after each one a run of
//! whitespace is skipped and the following run of letters and underscores is
//! captured, possibly empty.  The captures are then deduplicated, keeping
//! the first occurrence of each name in order.

use crate::lexer::lowercase;
use crate::lexer::lower_of;
use vstd::prelude::*;
use vstd::string::StrSliceExecFns;
use vstd::string::StringExecFns;

verus! {

/// A character a table name is made of: a letter or an underscore.
pub open spec fn is_word_char(c: char) -> bool {
    ('a' as u32 <= c as u32 && c as u32 <= 'z' as u32) || ('A' as u32 <= c as u32 && c as u32
        <= 'Z' as u32) || c == '_'
}

/// A Unicode whitespace character, the set skipped between `from` and the
/// table name.
pub open spec fn is_space_char(c: char) -> bool {
    c == '\t' || c == '\n' || c == '\u{b}' || c == '\u{c}' || c == '\r' || c == ' ' || c == '\u{85}'
        || c == '\u{a0}' || c == '\u{1680}' || (0x2000 <= c as u32 && c as u32 <= 0x200a) || c
        == '\u{2028}' || c == '\u{2029}' || c == '\u{202f}' || c == '\u{205f}' || c == '\u{3000}'
}

/// The position after the run of whitespace that starts at `j`.
pub open spec fn wsp_end(s: Seq<char>, j: int) -> int
    decreases s.len() - j,
{
    if j < 0 || j >= s.len() || !is_space_char(s[j]) {
        j
    } else {
        wsp_end(s, j + 1)
    }
}

/// The position after the run of word characters that starts at `j`.
pub open spec fn word_end(s: Seq<char>, j: int) -> int
    decreases s.len() - j,
{
    if j < 0 || j >= s.len() || !is_word_char(s[j]) {
        j
    } else {
        word_end(s, j + 1)
    }
}

proof fn lemma_wsp_end_bounds(s: Seq<char>, j: int)
    requires
        0 <= j <= s.len(),
    ensures
        j <= wsp_end(s, j) <= s.len(),
    decreases s.len() - j,
{
    if j < s.len() && is_space_char(s[j]) {
        lemma_wsp_end_bounds(s, j + 1);
    }
}

proof fn lemma_word_end_bounds(s: Seq<char>, j: int)
    requires
        0 <= j <= s.len(),
    ensures
        j <= word_end(s, j) <= s.len(),
    decreases s.len() - j,
{
    if j < s.len() && is_word_char(s[j]) {
        lemma_word_end_bounds(s, j + 1);
    }
}

/// The captures of the text `s` from position `i` on: for each occurrence
/// of `from`, the run of word characters after the whitespace that follows
/// it; the search resumes after the capture, so occurrences never overlap.
pub open spec fn spec_captures(s: Seq<char>, i: int) -> Seq<Seq<char>>
    decreases s.len() - i,
        when 0 <= i
    via spec_captures_decreases
{
    if i + 4 > s.len() {
        Seq::empty()
    } else if s.subrange(i, i + 4) == "from"@ {
        let j = wsp_end(s, i + 4);
        let k = word_end(s, j);
        seq![s.subrange(j, k)] + spec_captures(s, k)
    } else {
        spec_captures(s, i + 1)
    }
}

#[via_fn]
proof fn spec_captures_decreases(s: Seq<char>, i: int) {
    if i + 4 <= s.len() && s.subrange(i, i + 4) == "from"@ {
        lemma_wsp_end_bounds(s, i + 4);
        lemma_word_end_bounds(s, wsp_end(s, i + 4));
    }
}

/// `s` with every element that already occurred dropped: the first
/// occurrence of each element is kept, in order.
pub open spec fn spec_dedup(s: Seq<Seq<char>>) -> Seq<Seq<char>>
    decreases s.len(),
{
    if s.len() == 0 {
        Seq::empty()
    } else if s.drop_last().contains(s.last()) {
        spec_dedup(s.drop_last())
    } else {
        spec_dedup(s.drop_last()).push(s.last())
    }
}

proof fn lemma_dedup_contains(s: Seq<Seq<char>>, x: Seq<char>)
    ensures
        spec_dedup(s).contains(x) == s.contains(x),
    decreases s.len(),
{
    if s.len() > 0 {
        let q = s.drop_last();
        lemma_dedup_contains(q, x);
        assert(forall|i: int| 0 <= i < q.len() ==> q[i] == s[i]);
        assert(s.contains(x) <==> (q.contains(x) || s.last() == x)) by {
            if s.contains(x) {
                let i = choose|i: int| 0 <= i < s.len() && s[i] == x;
                if i < s.len() - 1 {
                    assert(q[i] == x);
                    assert(q.contains(x));
                }
            }
            if q.contains(x) {
                let i = choose|i: int| 0 <= i < q.len() && q[i] == x;
                assert(s[i] == x);
                assert(s.contains(x));
            }
            if s.last() == x {
                assert(s[s.len() - 1] == x);
                assert(s.contains(x));
            }
        }
        if !q.contains(s.last()) {
            let d = spec_dedup(q);
            assert(spec_dedup(s) == d.push(s.last()));
            assert(d.push(s.last()).contains(x) <==> (d.contains(x) || s.last() == x)) by {
                if d.push(s.last()).contains(x) {
                    let i = choose|i: int|
                        0 <= i < d.push(s.last()).len() && d.push(s.last())[i] == x;
                    if i < d.len() {
                        assert(d[i] == x);
                        assert(d.contains(x));
                    } else {
                        assert(s.last() == x);
                    }
                }
                if d.contains(x) {
                    let i = choose|i: int| 0 <= i < d.len() && d[i] == x;
                    assert(d.push(s.last())[i] == x);
                    assert(d.push(s.last()).contains(x));
                }
                if s.last() == x {
                    assert(d.push(s.last())[d.len() as int] == x);
                    assert(d.push(s.last()).contains(x));
                }
            }
        }
    }
}

/// Whether `x` occurs among the strings of `v`.
pub fn contains_string(v: &Vec<String>, x: &String) -> (r: bool)
    ensures
        r == v.deep_view().contains(x@),
{
    let n = v.len();
    let mut i: usize = 0;
    while i < n
        invariant
            n == v@.len(),
            i <= n,
            forall|k: int| 0 <= k < i ==> v.deep_view()[k] != x@,
        decreases n - i,
    {
        if v[i].eq(x) {
            proof {
                assert(v.deep_view()[i as int] == x@);
            }
            return true;
        }
        i = i + 1;
    }
    proof {
        assert(forall|k: int| 0 <= k < v.deep_view().len() ==> v.deep_view()[k] != x@);
    }
    false
}

/// Whether position `j` of `s` holds a whitespace character.
fn space_at(s: &str, j: usize, n: usize) -> (r: bool)
    requires
        n == s@.len(),
        j <= n,
    ensures
        r == (j < s@.len() && is_space_char(s@[j as int])),
{
    if j >= n {
        return false;
    }
    let c = s.get_char(j);
    let u = c as u32;
    c == '\t' || c == '\n' || c == '\u{b}' || c == '\u{c}' || c == '\r' || c == ' ' || c == '\u{85}'
        || c == '\u{a0}' || c == '\u{1680}' || (0x2000 <= u && u <= 0x200a) || c == '\u{2028}' || c
        == '\u{2029}' || c == '\u{202f}' || c == '\u{205f}' || c == '\u{3000}'
}

/// Whether position `j` of `s` holds a letter or an underscore.
fn word_at(s: &str, j: usize, n: usize) -> (r: bool)
    requires
        n == s@.len(),
        j <= n,
    ensures
        r == (j < s@.len() && is_word_char(s@[j as int])),
{
    if j >= n {
        return false;
    }
    let c = s.get_char(j);
    let u = c as u32;
    (97 <= u && u <= 122) || (65 <= u && u <= 90) || c == '_'
}

/// Extracts the distinct table names that follow each `from` in a script's
/// text, lowercasing the text first; the first occurrence of each name
/// decides its position in the result.
pub fn parse_tables(file: &str) -> (r: Vec<String>)
    ensures
        r.deep_view() == spec_dedup(spec_captures(lower_of(file@), 0)),
{
    let lowered = lowercase(file);
    let s = lowered.as_str();
    let n: usize = s.unicode_len();
    let mut caps: Vec<String> = Vec::new();
    let mut i: usize = 0;
    proof {
        assert(caps.deep_view() =~= Seq::<Seq<char>>::empty());
        assert(caps.deep_view() + spec_captures(s@, 0) =~= spec_captures(s@, 0));
    }
    while n - i >= 4
        invariant
            n == s@.len(),
            i <= n,
            spec_captures(s@, 0) == caps.deep_view() + spec_captures(s@, i as int),
        decreases n - i,
    {
        proof {
            assert(s@.subrange(i as int, i + 4)[0] == s@[i as int]);
            assert(s@.subrange(i as int, i + 4)[1] == s@[i + 1]);
            assert(s@.subrange(i as int, i + 4)[2] == s@[i + 2]);
            assert(s@.subrange(i as int, i + 4)[3] == s@[i + 3]);
            reveal_strlit("from");
        }
        if s.get_char(i) == 'f' && s.get_char(i + 1) == 'r' && s.get_char(i + 2) == 'o'
            && s.get_char(i + 3) == 'm' {
            proof {
                assert(s@.subrange(i as int, i + 4) =~= "from"@);
            }
            let mut j: usize = i + 4;
            while space_at(s, j, n)
                invariant
                    n == s@.len(),
                    i + 4 <= j <= n,
                    wsp_end(s@, i + 4) == wsp_end(s@, j as int),
                decreases n - j,
            {
                j = j + 1;
            }
            proof {
                assert(wsp_end(s@, j as int) == j);
            }
            let mut k: usize = j;
            while word_at(s, k, n)
                invariant
                    n == s@.len(),
                    j <= k <= n,
                    word_end(s@, j as int) == word_end(s@, k as int),
                decreases n - k,
            {
                k = k + 1;
            }
            proof {
                assert(word_end(s@, k as int) == k);
            }
            let ghost prev = caps.deep_view();
            let capture = String::from_str(s.substring_char(j, k));
            caps.push(capture);
            proof {
                assert(caps.deep_view() =~= prev.push(s@.subrange(j as int, k as int)));
                assert(caps.deep_view() + spec_captures(s@, k as int) =~= prev + (seq![
                    s@.subrange(j as int, k as int),
                ] + spec_captures(s@, k as int)));
            }
            i = k;
        } else {
            proof {
                assert(s@.subrange(i as int, i + 4) != "from"@);
            }
            i = i + 1;
        }
    }
    proof {
        assert(spec_captures(s@, i as int) =~= Seq::<Seq<char>>::empty());
        assert(caps.deep_view() + spec_captures(s@, i as int) =~= caps.deep_view());
    }
    let m = caps.len();
    let mut out: Vec<String> = Vec::new();
    let mut t: usize = 0;
    proof {
        assert(out.deep_view() =~= Seq::<Seq<char>>::empty());
        assert(caps.deep_view().take(0) =~= Seq::<Seq<char>>::empty());
    }
    while t < m
        invariant
            m == caps@.len(),
            t <= m,
            spec_captures(s@, 0) == caps.deep_view(),
            out.deep_view() == spec_dedup(caps.deep_view().take(t as int)),
        decreases m - t,
    {
        let ghost p = caps.deep_view().take(t as int);
        let ghost p1 = caps.deep_view().take(t + 1);
        proof {
            assert(p1.drop_last() =~= p);
            assert(p1.last() == caps.deep_view()[t as int]);
            lemma_dedup_contains(p, caps.deep_view()[t as int]);
        }
        let dup = contains_string(&out, &caps[t]);
        if !dup {
            let ghost prev = out.deep_view();
            out.push(caps[t].clone());
            proof {
                assert(out.deep_view() =~= prev.push(caps.deep_view()[t as int]));
            }
        }
        t = t + 1;
    }
    proof {
        assert(caps.deep_view().take(m as int) =~= caps.deep_view());
    }
    out
}

} // verus!
