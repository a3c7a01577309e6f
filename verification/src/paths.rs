//! Path analysis: parent-directory traversal detection, extension
//! extraction, and folder names.

use vstd::prelude::*;

verus! {

/// A path separator: either slash is accepted, so traversal cannot hide
/// behind the Windows separator.
pub open spec fn is_separator(c: char) -> bool {
    c == '/' || c == '\\'
}

/// Whether the path holds a `..` segment: two dots bounded by separators or
/// by the ends of the path.
pub open spec fn has_dotdot(s: Seq<char>) -> bool {
    exists|i: int|
        #![trigger s[i], s[i + 1]]
        0 <= i && i + 2 <= s.len() && s[i] == '.' && s[i + 1] == '.' && (i == 0 || is_separator(
            s[i - 1],
        )) && (i + 2 == s.len() || is_separator(s[i + 2]))
}

/// The scanning state over one path segment.
pub enum SegState {
    /// At the start of a segment
    Begin,
    /// The segment so far is exactly `.`
    DotOne,
    /// The segment so far is exactly `..`
    DotTwo,
    /// The segment is something else
    Other,
    /// A separator-closed `..` segment has been seen
    Found,
}

/// One scanning step.
pub open spec fn seg_step(state: SegState, c: char) -> SegState {
    match state {
        SegState::Begin => {
            if c == '.' {
                SegState::DotOne
            } else if is_separator(c) {
                SegState::Begin
            } else {
                SegState::Other
            }
        },
        SegState::DotOne => {
            if c == '.' {
                SegState::DotTwo
            } else if is_separator(c) {
                SegState::Begin
            } else {
                SegState::Other
            }
        },
        SegState::DotTwo => {
            if is_separator(c) {
                SegState::Found
            } else {
                SegState::Other
            }
        },
        SegState::Other => {
            if is_separator(c) {
                SegState::Begin
            } else {
                SegState::Other
            }
        },
        SegState::Found => SegState::Found,
    }
}

/// The scanning state after the whole sequence.
pub open spec fn seg_state(s: Seq<char>) -> SegState
    decreases s.len(),
{
    if s.len() == 0 {
        SegState::Begin
    } else {
        seg_step(seg_state(s.drop_last()), s.last())
    }
}

/// A `..` segment closed by a separator on its right.
pub open spec fn has_closed_dotdot(s: Seq<char>) -> bool {
    exists|i: int|
        #![trigger s[i], s[i + 1]]
        0 <= i && i + 2 < s.len() && s[i] == '.' && s[i + 1] == '.' && (i == 0 || is_separator(
            s[i - 1],
        )) && is_separator(s[i + 2])
}

/// What each scanning state says about the sequence read so far.
pub open spec fn seg_state_meaning(s: Seq<char>) -> bool {
    &&& (seg_state(s) is Found <==> has_closed_dotdot(s))
    &&& (seg_state(s) is DotTwo <==> !has_closed_dotdot(s) && s.len() >= 2 && s[s.len() - 1] == '.'
        && s[s.len() - 2] == '.' && (s.len() == 2 || is_separator(s[s.len() - 3])))
    &&& (seg_state(s) is DotOne <==> !has_closed_dotdot(s) && s.len() >= 1 && s[s.len() - 1] == '.'
        && (s.len() == 1 || is_separator(s[s.len() - 2])))
    &&& (seg_state(s) is Begin ==> !has_closed_dotdot(s) && (s.len() == 0 || is_separator(
        s[s.len() - 1],
    )))
    &&& (seg_state(s) is Other ==> !has_closed_dotdot(s) && s.len() >= 1 && !is_separator(
        s[s.len() - 1],
    ))
}

/// The scanning states mean what they say.
proof fn lemma_seg_state_meaning(s: Seq<char>)
    ensures
        seg_state_meaning(s),
    decreases s.len(),
{
    if s.len() == 0 {
    } else {
        let p = s.drop_last();
        let c = s.last();
        lemma_seg_state_meaning(p);
        assert(seg_state(s) == seg_step(seg_state(p), c));
        assert(p.len() == s.len() - 1);
        assert(forall|k: int| 0 <= k < p.len() ==> p[k] == s[k]);
        assert(c == s[s.len() - 1]);
        // A closed segment in the prefix is a closed segment in the whole.
        assert forall|i: int|
            #![trigger p[i], p[i + 1]]
            0 <= i && i + 2 < p.len() && p[i] == '.' && p[i + 1] == '.' && (i == 0 || is_separator(
                p[i - 1],
            )) && is_separator(p[i + 2]) implies 0 <= i && i + 2 < s.len() && s[i] == '.' && s[i
            + 1] == '.' && (i == 0 || is_separator(s[i - 1])) && is_separator(s[i + 2]) by {}
        if has_closed_dotdot(p) {
            assert(has_closed_dotdot(s));
        }
        if !has_closed_dotdot(p) {
            if seg_state(p) is DotTwo && is_separator(c) {
                // The prefix ends in a delimited `..`; the separator closes it.
                let i = p.len() - 2;
                assert(0 <= i && i + 2 < s.len() && s[i] == '.' && s[i + 1] == '.' && (i == 0
                    || is_separator(s[i - 1])) && is_separator(s[i + 2]));
                assert(has_closed_dotdot(s));
            } else {
                // No new closed segment appears: one would end at the last
                // character, forcing the prefix to end in a delimited `..`.
                if has_closed_dotdot(s) {
                    let i = choose|i: int|
                        #![trigger s[i], s[i + 1]]
                        0 <= i && i + 2 < s.len() && s[i] == '.' && s[i + 1] == '.' && (i == 0
                            || is_separator(s[i - 1])) && is_separator(s[i + 2]);
                    if i + 2 < p.len() {
                        assert(p[i] == '.' && p[i + 1] == '.');
                        assert(has_closed_dotdot(p));
                    } else {
                        assert(i + 2 == s.len() - 1);
                        assert(p[i] == '.' && p[i + 1] == '.' && (i == 0 || is_separator(
                            p[i - 1],
                        )));
                        assert(seg_state(p) is DotTwo);
                        assert(is_separator(c));
                    }
                }
            }
        }
    }
}

/// The dot-dot test and the scanning states agree.
proof fn lemma_seg_state_dotdot(s: Seq<char>)
    ensures
        has_dotdot(s) <==> (seg_state(s) is Found || seg_state(s) is DotTwo),
{
    lemma_seg_state_meaning(s);
    if seg_state(s) is Found {
        let i = choose|i: int|
            #![trigger s[i], s[i + 1]]
            0 <= i && i + 2 < s.len() && s[i] == '.' && s[i + 1] == '.' && (i == 0 || is_separator(
                s[i - 1],
            )) && is_separator(s[i + 2]);
        assert(0 <= i && i + 2 <= s.len() && s[i] == '.' && s[i + 1] == '.' && (i == 0
            || is_separator(s[i - 1])) && (i + 2 == s.len() || is_separator(s[i + 2])));
        assert(has_dotdot(s));
    }
    if seg_state(s) is DotTwo {
        let i = s.len() - 2;
        assert(0 <= i && i + 2 <= s.len() && s[i] == '.' && s[i + 1] == '.' && (i == 0
            || is_separator(s[i - 1])) && (i + 2 == s.len() || is_separator(s[i + 2])));
        assert(has_dotdot(s));
    }
    if has_dotdot(s) && !(seg_state(s) is Found) && !(seg_state(s) is DotTwo) {
        let i = choose|i: int|
            #![trigger s[i], s[i + 1]]
            0 <= i && i + 2 <= s.len() && s[i] == '.' && s[i + 1] == '.' && (i == 0 || is_separator(
                s[i - 1],
            )) && (i + 2 == s.len() || is_separator(s[i + 2]));
        if i + 2 == s.len() {
            assert(seg_state(s) is DotTwo || seg_state(s) is Found);
        } else {
            assert(has_closed_dotdot(s));
            assert(seg_state(s) is Found);
        }
    }
}

/// Whether the path has a parent directory segment (`..`) in it.
pub fn has_parent_dir(path: &str) -> (r: bool)
    ensures
        r == has_dotdot(path@),
{
    let s = path;
    let len = s.unicode_len();
    let mut i: usize = 0;
    let mut state = SegState::Begin;
    while i < len
        invariant
            0 <= i <= len,
            len == s@.len(),
            state == seg_state(s@.take(i as int)),
        decreases len - i,
    {
        let c = s.get_char(i);
        let new_state = match state {
            SegState::Begin => {
                if c == '.' {
                    SegState::DotOne
                } else if c == '/' || c == '\\' {
                    SegState::Begin
                } else {
                    SegState::Other
                }
            },
            SegState::DotOne => {
                if c == '.' {
                    SegState::DotTwo
                } else if c == '/' || c == '\\' {
                    SegState::Begin
                } else {
                    SegState::Other
                }
            },
            SegState::DotTwo => {
                if c == '/' || c == '\\' {
                    SegState::Found
                } else {
                    SegState::Other
                }
            },
            SegState::Other => {
                if c == '/' || c == '\\' {
                    SegState::Begin
                } else {
                    SegState::Other
                }
            },
            SegState::Found => SegState::Found,
        };
        proof {
            let t = s@.take(i as int + 1);
            assert(t.drop_last() =~= s@.take(i as int));
            assert(t.last() == s@[i as int]);
            assert(new_state == seg_step(seg_state(s@.take(i as int)), s@[i as int]));
        }
        state = new_state;
        i += 1;
    }
    proof {
        assert(s@.take(len as int) =~= s@);
        lemma_seg_state_dotdot(s@);
    }
    match state {
        SegState::DotTwo => true,
        SegState::Found => true,
        _ => false,
    }
}

/// The last extension of a path: the suffix from the last `.`, empty if no
/// `.` follows the last `/`.  For example `/Movie.en.vtt` has `.vtt`.
pub open spec fn last_extension(s: Seq<char>) -> Seq<char>
    decreases s.len(),
{
    if s.len() == 0 {
        Seq::empty()
    } else if s.last() == '/' {
        Seq::empty()
    } else if s.last() == '.' {
        s.subrange(s.len() - 1, s.len() as int)
    } else {
        let e = last_extension(s.drop_last());
        if e.len() == 0 {
            Seq::empty()
        } else {
            e.push(s.last())
        }
    }
}

/// Get the last part of the extension, for example "/Movie.en.vtt" is ".vtt".
pub fn get_last_extension(path: &str) -> (r: &str)
    ensures
        r@ == last_extension(path@),
{
    let len = path.unicode_len();
    let mut i: usize = 0;
    let mut start: Option<usize> = None;
    while i < len
        invariant
            0 <= i <= len,
            len == path@.len(),
            match start {
                None => last_extension(path@.take(i as int)).len() == 0,
                Some(j) => j < i && last_extension(path@.take(i as int)) == path@.subrange(
                    j as int,
                    i as int,
                ),
            },
        decreases len - i,
    {
        let c = path.get_char(i);
        let new_start: Option<usize> = if c == '/' {
            None
        } else if c == '.' {
            Some(i)
        } else {
            start
        };
        proof {
            let t = path@.take(i as int + 1);
            assert(t.drop_last() =~= path@.take(i as int));
            assert(t.last() == path@[i as int]);
            if c == '/' {
            } else if c == '.' {
                assert(t.subrange(t.len() - 1, t.len() as int) =~= path@.subrange(
                    i as int,
                    i as int + 1,
                ));
            } else {
                match start {
                    None => {},
                    Some(j) => {
                        assert(path@.subrange(j as int, i as int).push(path@[i as int])
                            =~= path@.subrange(j as int, i as int + 1));
                    },
                }
            }
        }
        start = new_start;
        i += 1;
    }
    proof {
        assert(path@.take(len as int) =~= path@);
    }
    match start {
        None => {
            let r = "";
            proof {
                reveal_strlit("");
                assert(r@ =~= last_extension(path@));
            }
            r
        },
        Some(j) => path.substring_char(j, len),
    }
}

/// Whether the sequence holds a slash.
pub open spec fn contains_slash(s: Seq<char>) -> bool
    decreases s.len(),
{
    if s.len() == 0 {
        false
    } else if s.last() == '/' {
        true
    } else {
        contains_slash(s.drop_last())
    }
}

/// The characters after the last slash, the whole sequence if it has none.
pub open spec fn after_last_slash(s: Seq<char>) -> Seq<char>
    decreases s.len(),
{
    if s.len() == 0 {
        Seq::empty()
    } else if s.last() == '/' {
        Seq::empty()
    } else {
        after_last_slash(s.drop_last()).push(s.last())
    }
}

/// The name of the last folder in a path: the characters between the last
/// two slashes, empty unless the path holds at least two slashes.  For
/// example `/Star Wars/Prequels/` has `Prequels`, and `/` has nothing.
pub open spec fn folder_name(s: Seq<char>) -> Seq<char>
    decreases s.len(),
{
    if s.len() == 0 {
        Seq::empty()
    } else if s.last() == '/' {
        if contains_slash(s.drop_last()) {
            after_last_slash(s.drop_last())
        } else {
            Seq::empty()
        }
    } else {
        folder_name(s.drop_last())
    }
}

/// `contains_slash` agrees with the existence of a slash.
proof fn lemma_contains_slash(s: Seq<char>)
    ensures
        contains_slash(s) <==> exists|t: int| 0 <= t < s.len() && s[t] == '/',
    decreases s.len(),
{
    if s.len() > 0 {
        lemma_contains_slash(s.drop_last());
        if s.last() == '/' {
            assert(s[s.len() - 1] == '/');
        } else if exists|t: int| 0 <= t < s.len() && s[t] == '/' {
            let t = choose|t: int| 0 <= t < s.len() && s[t] == '/';
            assert(s.drop_last()[t] == '/');
        }
    }
}

/// After the last slash means after the last slash.
proof fn lemma_after_last_slash(s: Seq<char>, k: int)
    requires
        0 <= k < s.len(),
        s[k] == '/',
        forall|t: int| k < t < s.len() ==> s[t] != '/',
    ensures
        after_last_slash(s) == s.subrange(k + 1, s.len() as int),
    decreases s.len(),
{
    if k == s.len() - 1 {
        assert(after_last_slash(s) =~= s.subrange(k + 1, s.len() as int));
    } else {
        lemma_after_last_slash(s.drop_last(), k);
        assert(after_last_slash(s.drop_last()).push(s.last()) =~= s.subrange(
            k + 1,
            s.len() as int,
        ));
    }
}

/// The folder name is the text between the last two slashes.
proof fn lemma_folder_name(s: Seq<char>, k: int, j: int)
    requires
        0 <= k < j < s.len(),
        s[k] == '/',
        s[j] == '/',
        forall|t: int| k < t < j ==> s[t] != '/',
        forall|t: int| j < t < s.len() ==> s[t] != '/',
    ensures
        folder_name(s) == s.subrange(k + 1, j),
    decreases s.len(),
{
    if j == s.len() - 1 {
        let p = s.drop_last();
        assert(p[k] == '/');
        lemma_contains_slash(p);
        lemma_after_last_slash(p, k);
        assert(p.subrange(k + 1, p.len() as int) =~= s.subrange(k + 1, j));
    } else {
        lemma_folder_name(s.drop_last(), k, j);
        assert(s.drop_last().subrange(k + 1, j) =~= s.subrange(k + 1, j));
    }
}

/// A path with fewer than two slashes has no folder name.
proof fn lemma_folder_name_empty(s: Seq<char>, j: int)
    requires
        forall|t: int| 0 <= t < s.len() && s[t] == '/' ==> t == j,
    ensures
        folder_name(s) == Seq::<char>::empty(),
    decreases s.len(),
{
    if s.len() > 0 {
        if s.last() == '/' {
            lemma_contains_slash(s.drop_last());
            if contains_slash(s.drop_last()) {
                let t = choose|t: int| 0 <= t < s.len() - 1 && s.drop_last()[t] == '/';
                assert(s[t] == '/' && s[s.len() - 1] == '/');
            }
        } else {
            lemma_folder_name_empty(s.drop_last(), j);
        }
    }
}

/// Given a path like "/Star Wars/Prequels/" or "/" get "Prequels" or "".
pub fn get_folder_name(path: &str) -> (r: &str)
    ensures
        r@ == folder_name(path@),
{
    let len = path.unicode_len();
    let mut i: usize = 0;
    let mut last: Option<usize> = None;
    let mut second: Option<usize> = None;
    while i < len
        invariant
            0 <= i <= len,
            len == path@.len(),
            match last {
                None => forall|t: int| 0 <= t < i ==> path@[t] != '/',
                Some(j) => j < i && path@[j as int] == '/' && forall|t: int|
                    j < t < i ==> path@[t] != '/',
            },
            match second {
                None => forall|t: int|
                    0 <= t < i && path@[t] == '/' ==> last == Some(t as usize),
                Some(k) => last matches Some(j) && k < j && path@[k as int] == '/' && forall|
                    t: int,
                |
                    k < t < j ==> path@[t] != '/',
            },
        decreases len - i,
    {
        let c = path.get_char(i);
        if c == '/' {
            second = last;
            last = Some(i);
        }
        i += 1;
    }
    match (second, last) {
        (Some(k), Some(j)) => {
            proof {
                lemma_folder_name(path@, k as int, j as int);
            }
            path.substring_char(k + 1, j)
        },
        _ => {
            let r = "";
            proof {
                match last {
                    None => lemma_folder_name_empty(path@, 0),
                    Some(j) => lemma_folder_name_empty(path@, j as int),
                }
                reveal_strlit("");
                assert(r@ =~= Seq::<char>::empty());
            }
            r
        },
    }
}

} // verus!
