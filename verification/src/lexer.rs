//! The lexer: a script's text is lowercased and then cut into tokens, the
//! maximal runs of characters that contain no separator.  The separator set
//! is space, comma, newline, tab and semicolon; empty runs are discarded, so
//! no empty or punctuation-only token survives.

use vstd::prelude::*;
use vstd::string::StrSliceExecFns;
use vstd::string::StringExecFns;

verus! {

/// The characters at which a script's text is cut.
pub open spec fn is_separator(c: char) -> bool {
    c == ' ' || c == ',' || c == '\n' || c == '\t' || c == ';'
}

/// The tokens of `s` when a run `cur` of non-separator characters has been
/// read and not yet emitted: a separator or the end of the text closes the
/// run, and only non-empty runs are kept.
pub open spec fn spec_tokens_from(s: Seq<char>, cur: Seq<char>) -> Seq<Seq<char>>
    decreases s.len(),
{
    if s.len() == 0 {
        if cur.len() == 0 {
            Seq::empty()
        } else {
            seq![cur]
        }
    } else if is_separator(s[0]) {
        if cur.len() == 0 {
            spec_tokens_from(s.drop_first(), Seq::empty())
        } else {
            seq![cur] + spec_tokens_from(s.drop_first(), Seq::empty())
        }
    } else {
        spec_tokens_from(s.drop_first(), cur.push(s[0]))
    }
}

/// The token sequence of the text `s`.
pub open spec fn spec_tokens(s: Seq<char>) -> Seq<Seq<char>> {
    spec_tokens_from(s, Seq::empty())
}

/// The lowercasing that `str::to_lowercase` performs, named: it depends on
/// the characters of its argument alone.
pub uninterp spec fn lower_of(s: Seq<char>) -> Seq<char>;

/// Relies on `str::to_lowercase`: the returned string is the Unicode
/// lowercase of the argument, a function of its characters alone.
#[verifier::external_body]
pub(crate) fn lowercase(s: &str) -> (r: String)
    ensures
        r@ == lower_of(s@),
{
    s.to_lowercase()
}

/// Cuts `s` into its tokens, without changing case.
pub fn tokenize(s: &str) -> (r: Vec<String>)
    ensures
        r.deep_view() == spec_tokens(s@),
{
    let n: usize = s.unicode_len();
    let mut out: Vec<String> = Vec::new();
    let mut start: usize = 0;
    let mut i: usize = 0;
    proof {
        assert(s@.skip(0) =~= s@);
        assert(s@.subrange(0, 0) =~= Seq::<char>::empty());
        assert(out.deep_view() =~= Seq::<Seq<char>>::empty());
        assert(out.deep_view() + spec_tokens_from(s@, Seq::empty()) =~= spec_tokens_from(
            s@,
            Seq::empty(),
        ));
    }
    while i < n
        invariant
            start <= i <= n,
            n == s@.len(),
            forall|k: int| start <= k < i ==> !is_separator(s@[k]),
            spec_tokens(s@) == out.deep_view() + spec_tokens_from(
                s@.skip(i as int),
                s@.subrange(start as int, i as int),
            ),
        decreases n - i,
    {
        let c = s.get_char(i);
        proof {
            assert(s@.skip(i as int).drop_first() =~= s@.skip(i + 1));
            assert(s@.skip(i as int)[0] == s@[i as int]);
        }
        if c == ' ' || c == ',' || c == '\n' || c == '\t' || c == ';' {
            proof {
                assert(s@.subrange(i + 1, i + 1) =~= Seq::<char>::empty());
            }
            if start < i {
                let ghost prev = out.deep_view();
                let token = String::from_str(s.substring_char(start, i));
                out.push(token);
                proof {
                    assert(out.deep_view() =~= prev.push(token@));
                    assert(out.deep_view() + spec_tokens_from(s@.skip(i + 1), Seq::empty()) =~= prev
                        + (seq![s@.subrange(start as int, i as int)] + spec_tokens_from(
                        s@.skip(i + 1),
                        Seq::empty(),
                    )));
                }
            } else {
                proof {
                    assert(s@.subrange(start as int, i as int) =~= Seq::<char>::empty());
                }
            }
            start = i + 1;
        } else {
            proof {
                assert(s@.subrange(start as int, i as int).push(s@[i as int]) =~= s@.subrange(
                    start as int,
                    i + 1,
                ));
            }
        }
        i = i + 1;
    }
    proof {
        assert(s@.skip(n as int) =~= Seq::<char>::empty());
    }
    if start < n {
        let ghost prev = out.deep_view();
        let token = String::from_str(s.substring_char(start, n));
        out.push(token);
        proof {
            assert(out.deep_view() =~= prev.push(token@));
            assert(out.deep_view() =~= prev + seq![token@]);
        }
    } else {
        proof {
            assert(s@.subrange(start as int, n as int).len() == 0);
            assert(out.deep_view() + spec_tokens_from(
                s@.skip(n as int),
                s@.subrange(start as int, n as int),
            ) =~= out.deep_view());
        }
    }
    out
}

/// Lowercases a script's text and cuts it into tokens.
pub fn lex_text(content: &str) -> (r: Vec<String>)
    ensures
        r.deep_view() == spec_tokens(lower_of(content@)),
{
    let lowered = lowercase(content);
    tokenize(lowered.as_str())
}

} // verus!
