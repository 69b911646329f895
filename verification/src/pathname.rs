//! File-name helpers: stripping the directory prefix from a path, and the
//! `.sql` extension test that decides which directory entries are scanned.

use vstd::prelude::*;
use vstd::string::StrSliceExecFns;
use vstd::string::StringExecFns;

verus! {

/// The part of a path after its last `/`: the file name without its
/// directory prefix.  A path without `/` is its own base name.
pub open spec fn spec_basename(s: Seq<char>) -> Seq<char>
    decreases s.len(),
{
    if s.len() == 0 {
        s
    } else if s.last() == '/' {
        Seq::empty()
    } else {
        spec_basename(s.drop_last()).push(s.last())
    }
}

/// Strips the directory prefix: everything up to and including the last
/// `/` of the path is dropped.
pub fn trim_prefix_from(file_name: &str) -> (r: String)
    ensures
        r@ == spec_basename(file_name@),
{
    let n: usize = file_name.unicode_len();
    let mut cut: usize = 0;
    let mut i: usize = 0;
    proof {
        assert(file_name@.take(0) =~= Seq::<char>::empty());
        assert(file_name@.subrange(0, 0) =~= Seq::<char>::empty());
    }
    while i < n
        invariant
            n == file_name@.len(),
            cut <= i <= n,
            file_name@.subrange(cut as int, i as int) == spec_basename(file_name@.take(i as int)),
        decreases n - i,
    {
        proof {
            assert(file_name@.take(i + 1).drop_last() =~= file_name@.take(i as int));
            assert(file_name@.take(i + 1).last() == file_name@[i as int]);
        }
        if file_name.get_char(i) == '/' {
            cut = i + 1;
            proof {
                assert(file_name@.subrange(cut as int, i + 1) =~= Seq::<char>::empty());
            }
        } else {
            proof {
                assert(file_name@.subrange(cut as int, i + 1) =~= file_name@.subrange(
                    cut as int,
                    i as int,
                ).push(file_name@[i as int]));
            }
        }
        i = i + 1;
    }
    proof {
        assert(file_name@.take(n as int) =~= file_name@);
    }
    String::from_str(file_name.substring_char(cut, n))
}

/// Whether a file name carries the `.sql` extension.
pub open spec fn is_sql_name(s: Seq<char>) -> bool {
    s.len() >= 4 && s.subrange(s.len() - 4, s.len() as int) == ".sql"@
}

/// Whether a file name carries the `.sql` extension; only such directory
/// entries are scanned.
pub fn has_sql_extension(file_name: &str) -> (r: bool)
    ensures
        r == is_sql_name(file_name@),
{
    let n: usize = file_name.unicode_len();
    if n < 4 {
        return false;
    }
    let r = file_name.get_char(n - 4) == '.' && file_name.get_char(n - 3) == 's'
        && file_name.get_char(n - 2) == 'q' && file_name.get_char(n - 1) == 'l';
    proof {
        reveal_strlit(".sql");
        assert(file_name@.subrange(n - 4, n as int).len() == 4);
        assert(file_name@.subrange(n - 4, n as int)[0] == file_name@[n - 4]);
        assert(file_name@.subrange(n - 4, n as int)[1] == file_name@[n - 3]);
        assert(file_name@.subrange(n - 4, n as int)[2] == file_name@[n - 2]);
        assert(file_name@.subrange(n - 4, n as int)[3] == file_name@[n - 1]);
        if r {
            assert(file_name@.subrange(n - 4, n as int) =~= ".sql"@);
        }
    }
    r
}

} // verus!
