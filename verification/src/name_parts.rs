//! Splitting a file name at its first dot.

use vstd::prelude::*;
use vstd::string::StrSliceExecFns;

verus! {

/// The characters before the first dot, the whole name if it has none.
pub open spec fn spec_basename(s: Seq<char>) -> Seq<char>
    decreases s.len(),
{
    if s.len() == 0 {
        Seq::empty()
    } else if s[0] == '.' {
        Seq::empty()
    } else {
        seq![s[0]] + spec_basename(s.drop_first())
    }
}

/// The characters from the first dot to the end, empty if it has none.
pub open spec fn spec_extension(s: Seq<char>) -> Seq<char>
    decreases s.len(),
{
    if s.len() == 0 {
        Seq::empty()
    } else if s[0] == '.' {
        s
    } else {
        spec_extension(s.drop_first())
    }
}

/// The file name and extension.
pub struct NameParts<'a> {
    /// Before the first dot
    pub basename: &'a str,
    /// The first dot until the end
    pub extension: &'a str,
}

/// The basename is everything before the first dot.
proof fn lemma_split_at_dot(s: Seq<char>, i: int)
    requires
        0 <= i <= s.len(),
        forall|t: int| 0 <= t < i ==> s[t] != '.',
        i < s.len() ==> s[i] == '.',
    ensures
        spec_basename(s) == s.subrange(0, i),
        spec_extension(s) == s.subrange(i, s.len() as int),
    decreases i,
{
    if s.len() == 0 {
        assert(spec_basename(s) =~= s.subrange(0, i));
        assert(spec_extension(s) =~= s.subrange(i, s.len() as int));
    } else if i == 0 {
        if s[0] == '.' {
            assert(spec_basename(s) =~= s.subrange(0, 0));
            assert(spec_extension(s) =~= s.subrange(0, s.len() as int));
        } else {
            assert(spec_basename(s) =~= s.subrange(0, 0));
            assert(spec_extension(s) =~= s.subrange(0, s.len() as int));
        }
    } else {
        let rest = s.drop_first();
        lemma_split_at_dot(rest, i - 1);
        assert(seq![s[0]] + rest.subrange(0, i - 1) =~= s.subrange(0, i));
        assert(rest.subrange(i - 1, rest.len() as int) =~= s.subrange(i, s.len() as int));
    }
}

impl<'a> NameParts<'a> {
    /// Split the name.
    pub fn new(name: &'a str) -> (r: NameParts<'a>)
        ensures
            r.basename@ == spec_basename(name@),
            r.extension@ == spec_extension(name@),
    {
        let len = name.unicode_len();
        let mut i: usize = 0;
        while i < len
            invariant
                0 <= i <= len,
                len == name@.len(),
                forall|t: int| 0 <= t < i ==> name@[t] != '.',
            decreases len - i,
        {
            if name.get_char(i) == '.' {
                proof {
                    lemma_split_at_dot(name@, i as int);
                }
                return NameParts {
                    basename: name.substring_char(0, i),
                    extension: name.substring_char(i, len),
                };
            }
            i += 1;
        }
        proof {
            lemma_split_at_dot(name@, len as int);
            assert(name@.subrange(0, len as int) =~= name@);
        }
        let r = NameParts { basename: name, extension: "" };
        proof {
            reveal_strlit("");
            assert(r.extension@ =~= name@.subrange(len as int, len as int));
        }
        r
    }
}

} // verus!
