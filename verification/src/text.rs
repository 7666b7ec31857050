//! Character-level text logic: the status line derived from a file's
//! content and the base name derived from a path.

use vstd::prelude::*;
use vstd::string::StrSliceExecFns;
use vstd::string::StringExecFns;

verus! {

/// The whitespace characters that are stripped from the end of a status line.
pub open spec fn is_space_char(c: char) -> bool {
    c == ' ' || c == '\t' || c == '\r' || c == '\n'
}

/// The prefix of `s` up to (and not including) its first line break.
pub open spec fn first_line(s: Seq<char>) -> Seq<char>
    decreases s.len(),
{
    if s.len() == 0 {
        s
    } else if s[0] == '\n' {
        Seq::empty()
    } else {
        seq![s[0]] + first_line(s.drop_first())
    }
}

/// `s` without its trailing whitespace.
pub open spec fn trim_end(s: Seq<char>) -> Seq<char>
    decreases s.len(),
{
    if s.len() == 0 {
        s
    } else if is_space_char(s.last()) {
        trim_end(s.drop_last())
    } else {
        s
    }
}

/// The status text of a file: the first line of its content, with trailing
/// whitespace removed.
pub open spec fn status_text(content: Seq<char>) -> Seq<char> {
    trim_end(first_line(content))
}

/// The part of `path` after its last `/` separator.
pub open spec fn base_name(path: Seq<char>) -> Seq<char>
    decreases path.len(),
{
    if path.len() == 0 {
        path
    } else if path.last() == '/' {
        Seq::empty()
    } else {
        base_name(path.drop_last()).push(path.last())
    }
}

pub fn is_space(c: char) -> (r: bool)
    ensures
        r == is_space_char(c),
{
    c == ' ' || c == '\t' || c == '\r' || c == '\n'
}

proof fn lemma_first_line_prefix(s: Seq<char>, i: int)
    requires
        0 <= i <= s.len(),
        forall|j: int| 0 <= j < i ==> s[j] != '\n',
        i == s.len() || s[i] == '\n',
    ensures
        first_line(s) == s.subrange(0, i),
    decreases i,
{
    if i == 0 {
        assert(first_line(s) =~= s.subrange(0, 0));
    } else {
        assert(s[0] != '\n');
        let rest = s.drop_first();
        assert forall|j: int| 0 <= j < i - 1 implies rest[j] != '\n' by {
            assert(rest[j] == s[j + 1]);
        }
        lemma_first_line_prefix(rest, i - 1);
        assert(seq![s[0]] + rest.subrange(0, i - 1) =~= s.subrange(0, i));
    }
}

proof fn lemma_trim_end_prefix(s: Seq<char>, i: int, j: int)
    requires
        0 <= j <= i <= s.len(),
        forall|k: int| j <= k < i ==> is_space_char(s[k]),
        j == 0 || !is_space_char(s[j - 1]),
    ensures
        trim_end(s.subrange(0, i)) == s.subrange(0, j),
    decreases i - j,
{
    if i == j {
        if i > 0 {
            assert(s.subrange(0, i).last() == s[i - 1]);
        }
    } else {
        assert(s.subrange(0, i).last() == s[i - 1]);
        assert(is_space_char(s[i - 1]));
        assert(s.subrange(0, i).drop_last() =~= s.subrange(0, i - 1));
        lemma_trim_end_prefix(s, i - 1, j);
    }
}

proof fn lemma_base_name_suffix(s: Seq<char>, k: int)
    requires
        0 <= k <= s.len(),
        forall|j: int| k <= j < s.len() ==> s[j] != '/',
        k == 0 || s[k - 1] == '/',
    ensures
        base_name(s) == s.subrange(k, s.len() as int),
    decreases s.len() - k,
{
    if k == s.len() {
        if s.len() > 0 {
            assert(s.last() == '/');
        }
        assert(base_name(s) =~= s.subrange(k, s.len() as int));
    } else {
        assert(s.last() == s[s.len() - 1]);
        assert(s.last() != '/');
        let front = s.drop_last();
        assert forall|j: int| k <= j < front.len() implies front[j] != '/' by {
            assert(front[j] == s[j]);
        }
        lemma_base_name_suffix(front, k);
        assert(front.subrange(k, front.len() as int).push(s.last()) =~= s.subrange(
            k,
            s.len() as int,
        ));
    }
}

/// Computes the status text of a file from its content: the first line,
/// with trailing whitespace removed.
pub fn compute_status(content: &str) -> (r: String)
    ensures
        r@ == status_text(content@),
{
    let len = content.unicode_len();
    let mut end: usize = 0;
    while end < len && content.get_char(end) != '\n'
        invariant
            0 <= end <= len,
            len == content@.len(),
            forall|j: int| 0 <= j < end ==> content@[j] != '\n',
        decreases len - end,
    {
        end = end + 1;
    }
    proof {
        lemma_first_line_prefix(content@, end as int);
    }
    let mut stop: usize = end;
    while stop > 0 && is_space(content.get_char(stop - 1))
        invariant
            0 <= stop <= end <= content@.len(),
            forall|k: int| stop <= k < end ==> is_space_char(content@[k]),
        decreases stop,
    {
        stop = stop - 1;
    }
    proof {
        lemma_trim_end_prefix(content@, end as int, stop as int);
    }
    let line = content.substring_char(0, stop);
    String::from_str(line)
}

/// Derives a file's display name: the part of its path after the last `/`.
pub fn base_name_of(path: &str) -> (r: String)
    ensures
        r@ == base_name(path@),
{
    let len = path.unicode_len();
    let mut k: usize = len;
    while k > 0 && path.get_char(k - 1) != '/'
        invariant
            0 <= k <= len,
            len == path@.len(),
            forall|j: int| k <= j < len ==> path@[j] != '/',
        decreases k,
    {
        k = k - 1;
    }
    proof {
        lemma_base_name_suffix(path@, k as int);
    }
    let s = path.substring_char(k, len);
    String::from_str(s)
}

} // verus!
