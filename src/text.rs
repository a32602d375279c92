use vstd::prelude::*;
use vstd::string::{StrSliceExecFns, StringExecFns};

verus! {

/// Characters treated as blanks between and around tokens: the Unicode White_Space set.
pub open spec fn is_blank(c: char) -> bool {
    ('\u{9}' <= c && c <= '\u{D}') || c == ' ' || c == '\u{85}' || c == '\u{A0}' || c == '\u{1680}'
        || ('\u{2000}' <= c && c <= '\u{200A}') || c == '\u{2028}' || c == '\u{2029}'
        || c == '\u{202F}' || c == '\u{205F}' || c == '\u{3000}'
}

/// Two consecutive slashes start a comment at position `i`.
pub open spec fn marker_at(s: Seq<char>, i: int) -> bool {
    0 <= i && i + 1 < s.len() && s[i] == '/' && s[i + 1] == '/'
}

/// Position of the first comment marker at or after `i`, or the length when there is none.
pub open spec fn comment_start_from(s: Seq<char>, i: int) -> int
    decreases s.len() - i,
{
    if i < 0 || i + 1 >= s.len() {
        s.len() as int
    } else if marker_at(s, i) {
        i
    } else {
        comment_start_from(s, i + 1)
    }
}

/// The line with any comment removed.
pub open spec fn code_part(s: Seq<char>) -> Seq<char> {
    s.take(comment_start_from(s, 0))
}

/// `s` without its leading blanks.
pub open spec fn trim_front(s: Seq<char>) -> Seq<char>
    decreases s.len(),
{
    if s.len() > 0 && is_blank(s[0]) {
        trim_front(s.drop_first())
    } else {
        s
    }
}

/// `s` without its trailing blanks.
pub open spec fn trim_back(s: Seq<char>) -> Seq<char>
    decreases s.len(),
{
    if s.len() > 0 && is_blank(s.last()) {
        trim_back(s.drop_last())
    } else {
        s
    }
}

/// A raw line with its comment removed and surrounding blanks trimmed.
pub open spec fn normalized(s: Seq<char>) -> Seq<char> {
    trim_back(trim_front(code_part(s)))
}

/// Scanning state after reading `s`: the finished tokens and the token being read.
pub open spec fn scan(s: Seq<char>) -> (Seq<Seq<char>>, Seq<char>)
    decreases s.len(),
{
    if s.len() == 0 {
        (seq![], seq![])
    } else {
        let (done, cur) = scan(s.drop_last());
        let c = s.last();
        if is_blank(c) {
            if cur.len() > 0 {
                (done.push(cur), seq![])
            } else {
                (done, cur)
            }
        } else {
            (done, cur.push(c))
        }
    }
}

/// The maximal runs of non-blank characters of `s`, in order.
pub open spec fn tokens(s: Seq<char>) -> Seq<Seq<char>> {
    let (done, cur) = scan(s);
    if cur.len() > 0 {
        done.push(cur)
    } else {
        done
    }
}

pub fn is_blank_char(c: char) -> (r: bool)
    ensures
        r == is_blank(c),
{
    ('\u{9}' <= c && c <= '\u{D}') || c == ' ' || c == '\u{85}' || c == '\u{A0}' || c == '\u{1680}'
        || ('\u{2000}' <= c && c <= '\u{200A}') || c == '\u{2028}' || c == '\u{2029}'
        || c == '\u{202F}' || c == '\u{205F}' || c == '\u{3000}'
}

/// The characters of a string, in order.
pub fn chars_of(s: &str) -> (r: Vec<char>)
    ensures
        r@ == s@,
{
    let n = s.unicode_len();
    let mut out: Vec<char> = Vec::new();
    let mut i: usize = 0;
    while i < n
        invariant
            n == s@.len(),
            i <= n,
            out@ == s@.take(i as int),
        decreases n - i,
    {
        out.push(s.get_char(i));
        i = i + 1;
        assert(out@ =~= s@.take(i as int));
    }
    assert(out@ =~= s@);
    out
}

/// Where the normalized form of a raw line lies in it.
fn normalized_bounds(line: &Vec<char>) -> (r: (usize, usize))
    ensures
        r.0 <= r.1 <= line@.len(),
        line@.subrange(r.0 as int, r.1 as int) == normalized(line@),
{
    let n = line.len();
    // find the comment marker
    let mut end: usize = 0;
    let mut found = false;
    while end < n && end + 1 < n && !found
        invariant
            n == line@.len(),
            found ==> marker_at(line@, end as int) && end + 1 < n,
            comment_start_from(line@, 0) == comment_start_from(line@, end as int),
            end <= n,
        decreases n - end + (if found { 0int } else { 1int }),
    {
        if line[end] == '/' && line[end + 1] == '/' {
            found = true;
        } else {
            end = end + 1;
        }
    }
    if !found {
        end = n;
    }
    assert(comment_start_from(line@, 0) == end);
    // skip leading blanks
    let mut lo: usize = 0;
    while lo < end && is_blank_char(line[lo])
        invariant
            lo <= end <= n,
            n == line@.len(),
            trim_front(line@.take(end as int)) == trim_front(line@.subrange(lo as int, end as int)),
        decreases end - lo,
    {
        assert(line@.subrange(lo as int, end as int).drop_first() =~= line@.subrange(lo + 1, end as int));
        lo = lo + 1;
    }
    assert(line@.take(end as int) =~= line@.subrange(0, end as int));
    assert(trim_front(line@.subrange(lo as int, end as int)) == line@.subrange(lo as int, end as int));
    let mut hi: usize = end;
    while hi > lo && is_blank_char(line[hi - 1])
        invariant
            lo <= hi <= end <= n,
            n == line@.len(),
            normalized(line@) == trim_back(line@.subrange(lo as int, hi as int)),
        decreases hi,
    {
        assert(line@.subrange(lo as int, hi as int).drop_last() =~= line@.subrange(lo as int, hi - 1));
        hi = hi - 1;
    }
    assert(trim_back(line@.subrange(lo as int, hi as int)) == line@.subrange(lo as int, hi as int));
    (lo, hi)
}

/// Strips the comment and the surrounding blanks from a raw line.
pub fn normalize(line: &Vec<char>) -> (r: Vec<char>)
    ensures
        r@ == normalized(line@),
{
    let (lo, hi) = normalized_bounds(line);
    let mut out: Vec<char> = Vec::new();
    let mut k: usize = lo;
    while k < hi
        invariant
            lo <= k <= hi <= line@.len(),
            out@ == line@.subrange(lo as int, k as int),
        decreases hi - k,
    {
        out.push(line[k]);
        k = k + 1;
        assert(out@ =~= line@.subrange(lo as int, k as int));
    }
    out
}

/// The normalized form of a raw line, as a string.
pub fn strip(line: &str) -> (r: String)
    ensures
        r@ == normalized(line@),
{
    let cs = chars_of(line);
    let (lo, hi) = normalized_bounds(&cs);
    <String as StringExecFns>::from_str(line.substring_char(lo, hi))
}

/// Splits a line into its maximal runs of non-blank characters.
pub fn tokenize(line: &Vec<char>) -> (r: Vec<Vec<char>>)
    ensures
        r@.map_values(|t: Vec<char>| t@) == tokens(line@),
{
    let n = line.len();
    let mut done: Vec<Vec<char>> = Vec::new();
    let mut cur: Vec<char> = Vec::new();
    let mut i: usize = 0;
    while i < n
        invariant
            i <= n,
            n == line@.len(),
            scan(line@.take(i as int)) == (done@.map_values(|t: Vec<char>| t@), cur@),
        decreases n - i,
    {
        let c = line[i];
        assert(line@.take(i + 1).drop_last() =~= line@.take(i as int));
        if is_blank_char(c) {
            if cur.len() > 0 {
                let full = cur;
                done.push(full);
                cur = Vec::new();
            }
        } else {
            cur.push(c);
        }
        i = i + 1;
        assert(scan(line@.take(i as int)).0 =~= done@.map_values(|t: Vec<char>| t@));
        assert(scan(line@.take(i as int)).1 =~= cur@);
    }
    assert(line@.take(n as int) =~= line@);
    if cur.len() > 0 {
        done.push(cur);
    }
    assert(done@.map_values(|t: Vec<char>| t@) =~= tokens(line@));
    done
}

} // verus!
