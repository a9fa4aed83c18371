//! Plain text shaping: whitespace tests, greeting text, the fallback for
//! a chat reply, and the cleanup of generated slide suggestions.

use vstd::prelude::*;
use vstd::string::StrSliceExecFns;
use vstd::string::StringExecFns;

verus! {

/// The whitespace characters, as the Unicode `White_Space` property lists
/// them.
pub open spec fn is_space(c: char) -> bool {
    ||| c == ' '
    ||| c == '\t'
    ||| c == '\n'
    ||| c == '\u{0B}'
    ||| c == '\u{0C}'
    ||| c == '\r'
    ||| c == '\u{85}'
    ||| c == '\u{A0}'
    ||| c == '\u{1680}'
    ||| ('\u{2000}' <= c && c <= '\u{200A}')
    ||| c == '\u{2028}'
    ||| c == '\u{2029}'
    ||| c == '\u{202F}'
    ||| c == '\u{205F}'
    ||| c == '\u{3000}'
}

/// Whether `c` is whitespace.
pub fn is_space_char(c: char) -> (r: bool)
    ensures
        r == is_space(c),
{
    c == ' ' || c == '\t' || c == '\n' || c == '\u{0B}' || c == '\u{0C}' || c == '\r'
        || c == '\u{85}' || c == '\u{A0}' || c == '\u{1680}' || ('\u{2000}' <= c && c
        <= '\u{200A}') || c == '\u{2028}' || c == '\u{2029}' || c == '\u{202F}' || c == '\u{205F}'
        || c == '\u{3000}'
}

/// Whether `s` holds no visible character: empty, or whitespace only.
pub open spec fn blank(s: Seq<char>) -> bool {
    forall|i: int| 0 <= i < s.len() ==> is_space(#[trigger] s[i])
}

/// Whether `s` trims to the empty string.
pub fn is_blank(s: &str) -> (r: bool)
    ensures
        r == blank(s@),
{
    let n = s.unicode_len();
    let mut i: usize = 0;
    while i < n
        invariant
            n == s@.len(),
            i <= n,
            forall|j: int| 0 <= j < i ==> is_space(#[trigger] s@[j]),
        decreases n - i,
    {
        if !is_space_char(s.get_char(i)) {
            return false;
        }
        i = i + 1;
    }
    true
}

/// Drop the longest prefix of `s` whose characters satisfy `p`.
pub open spec fn drop_while(p: spec_fn(char) -> bool, s: Seq<char>) -> Seq<char>
    decreases s.len(),
{
    if s.len() > 0 && p(s[0]) {
        drop_while(p, s.drop_first())
    } else {
        s
    }
}

/// Drop the longest suffix of `s` whose characters satisfy `p`.
pub open spec fn drop_end_while(p: spec_fn(char) -> bool, s: Seq<char>) -> Seq<char>
    decreases s.len(),
{
    if s.len() > 0 && p(s.last()) {
        drop_end_while(p, s.drop_last())
    } else {
        s
    }
}

/// The whitespace test, as a value.
pub open spec fn space_pred() -> spec_fn(char) -> bool {
    |c: char| is_space(c)
}

/// The test for one particular character, as a value.
pub open spec fn char_pred(m: char) -> spec_fn(char) -> bool {
    |c: char| c == m
}

/// `s` without leading and trailing whitespace.
pub open spec fn trim_spec(s: Seq<char>) -> Seq<char> {
    drop_end_while(space_pred(), drop_while(space_pred(), s))
}

/// A cleaned suggestion line: trimmed, then leading dashes stripped, then
/// leading dots, then trimmed again.
pub open spec fn cleaned(l: Seq<char>) -> Seq<char> {
    trim_spec(drop_while(char_pred('.'), drop_while(char_pred('-'), trim_spec(l))))
}

/// The index of the first newline in `s`, or its length if there is none.
pub open spec fn find_newline(s: Seq<char>) -> nat
    decreases s.len(),
{
    if s.len() == 0 {
        0
    } else if s[0] == '\n' {
        0
    } else {
        1 + find_newline(s.drop_first())
    }
}

/// A line as `str::lines` yields it: without a final carriage return.
pub open spec fn strip_cr(l: Seq<char>) -> Seq<char> {
    if l.len() > 0 && l.last() == '\r' {
        l.drop_last()
    } else {
        l
    }
}

/// The lines of `s`: split at newlines, each without a final carriage
/// return; a final newline closes the last line and opens no empty one.
pub open spec fn split_lines(s: Seq<char>) -> Seq<Seq<char>>
    decreases s.len(),
{
    if s.len() == 0 {
        Seq::empty()
    } else {
        let i = find_newline(s);
        if i >= s.len() {
            seq![strip_cr(s)]
        } else {
            seq![strip_cr(s.take(i as int))] + split_lines(s.skip(i as int + 1))
        }
    }
}

/// Whether a generated line looks like a list item: it holds a dash or a
/// dot somewhere.
pub open spec fn has_marker(l: Seq<char>) -> bool {
    l.contains('-') || l.contains('.')
}

/// The list-item test, as a value.
pub open spec fn marker_pred() -> spec_fn(Seq<char>) -> bool {
    |l: Seq<char>| has_marker(l)
}

/// The line cleanup, as a value.
pub open spec fn cleaned_fn() -> spec_fn(Seq<char>) -> Seq<char> {
    |l: Seq<char>| cleaned(l)
}

/// The models of a sequence of strings.
pub open spec fn line_models(v: Seq<String>) -> Seq<Seq<char>> {
    v.map_values(|t: String| t@)
}

/// The slide suggestions drawn from generated text: its lines that hold a
/// dash or a dot, each cleaned up.
pub open spec fn suggestions_of(s: Seq<char>) -> Seq<Seq<char>> {
    split_lines(s).filter(marker_pred()).map_values(cleaned_fn())
}

/// `find_newline` names the first newline: nothing before index `j` is a
/// newline, and `j` carries one when it lies inside `s`.
proof fn lemma_find_newline_is(s: Seq<char>, j: nat)
    requires
        j <= s.len(),
        forall|k: int| 0 <= k < j ==> s[k] != '\n',
        j < s.len() ==> s[j as int] == '\n',
    ensures
        find_newline(s) == j,
    decreases s.len(),
{
    if s.len() > 0 && s[0] != '\n' {
        let t = s.drop_first();
        assert(forall|k: int| 0 <= k < j - 1 ==> t[k] == s[k + 1] && s[k + 1] != '\n');
        lemma_find_newline_is(t, (j - 1) as nat);
    }
}

/// Dropping while `p` holds turns the piece of `s` from `lo` on into the
/// piece from `lo2` on, `lo2` being the first index at which `p` fails.
proof fn lemma_drop_while_range(
    p: spec_fn(char) -> bool,
    s: Seq<char>,
    lo: int,
    hi: int,
    lo2: int,
)
    requires
        0 <= lo <= lo2 <= hi <= s.len(),
        forall|k: int| lo <= k < lo2 ==> p(#[trigger] s[k]),
        lo2 < hi ==> !p(s[lo2]),
    ensures
        drop_while(p, s.subrange(lo, hi)) == s.subrange(lo2, hi),
    decreases lo2 - lo,
{
    let sub = s.subrange(lo, hi);
    if lo == lo2 {
        if lo2 < hi {
            assert(sub[0] == s[lo2]);
        }
        assert(sub == s.subrange(lo2, hi));
    } else {
        assert(sub[0] == s[lo]);
        assert(sub.drop_first() =~= s.subrange(lo + 1, hi));
        lemma_drop_while_range(p, s, lo + 1, hi, lo2);
    }
}

/// Dropping from the end while `p` holds turns the piece of `s` up to `hi`
/// into the piece up to `hi2`, `hi2` being past the last index at which
/// `p` fails.
proof fn lemma_drop_end_while_range(
    p: spec_fn(char) -> bool,
    s: Seq<char>,
    lo: int,
    hi: int,
    hi2: int,
)
    requires
        0 <= lo <= hi2 <= hi <= s.len(),
        forall|k: int| hi2 <= k < hi ==> p(#[trigger] s[k]),
        lo < hi2 ==> !p(s[hi2 - 1]),
    ensures
        drop_end_while(p, s.subrange(lo, hi)) == s.subrange(lo, hi2),
    decreases hi - hi2,
{
    let sub = s.subrange(lo, hi);
    if hi == hi2 {
        if lo < hi {
            assert(sub.last() == s[hi - 1]);
        }
        assert(sub == s.subrange(lo, hi2));
    } else {
        assert(sub.last() == s[hi - 1]);
        assert(sub.drop_last() =~= s.subrange(lo, hi - 1));
        lemma_drop_end_while_range(p, s, lo, hi - 1, hi2);
    }
}

/// Whether `l` holds a dash or a dot somewhere.
pub fn has_marker_line(l: &str) -> (r: bool)
    ensures
        r == has_marker(l@),
{
    let n = l.unicode_len();
    let mut i: usize = 0;
    while i < n
        invariant
            n == l@.len(),
            i <= n,
            forall|k: int| 0 <= k < i ==> #[trigger] l@[k] != '-' && l@[k] != '.',
        decreases n - i,
    {
        let c = l.get_char(i);
        if c == '-' || c == '.' {
            proof {
                assert(l@[i as int] == c);
            }
            return true;
        }
        i = i + 1;
    }
    false
}

/// Clean one generated line: trim it, strip leading dashes, then leading
/// dots, and trim what is left.
pub fn clean_line(l: &str) -> (r: String)
    ensures
        r@ == cleaned(l@),
{
    let n = l.unicode_len();
    let mut a: usize = 0;
    let mut b: usize = n;
    while a < b && is_space_char(l.get_char(a))
        invariant
            n == l@.len(),
            a <= b <= n,
            forall|k: int| 0 <= k < a ==> is_space(#[trigger] l@[k]),
        decreases b - a,
    {
        a = a + 1;
    }
    let ghost a1 = a as int;
    proof {
        lemma_drop_while_range(space_pred(), l@, 0, n as int, a1);
        assert(l@.subrange(0, n as int) == l@);
    }
    while b > a && is_space_char(l.get_char(b - 1))
        invariant
            n == l@.len(),
            a <= b <= n,
            forall|k: int| b <= k < n ==> is_space(#[trigger] l@[k]),
        decreases b,
    {
        b = b - 1;
    }
    let ghost b1 = b as int;
    proof {
        lemma_drop_end_while_range(space_pred(), l@, a1, n as int, b1);
        assert(trim_spec(l@) == l@.subrange(a1, b1));
    }
    while a < b && l.get_char(a) == '-'
        invariant
            n == l@.len(),
            a1 <= a <= b <= n,
            b == b1,
            forall|k: int| a1 <= k < a ==> #[trigger] l@[k] == '-',
        decreases b - a,
    {
        a = a + 1;
    }
    let ghost a2 = a as int;
    proof {
        lemma_drop_while_range(char_pred('-'), l@, a1, b1, a2);
    }
    while a < b && l.get_char(a) == '.'
        invariant
            n == l@.len(),
            a2 <= a <= b <= n,
            b == b1,
            forall|k: int| a2 <= k < a ==> #[trigger] l@[k] == '.',
        decreases b - a,
    {
        a = a + 1;
    }
    let ghost a3 = a as int;
    proof {
        lemma_drop_while_range(char_pred('.'), l@, a2, b1, a3);
    }
    while a < b && is_space_char(l.get_char(a))
        invariant
            n == l@.len(),
            a3 <= a <= b <= n,
            b == b1,
            forall|k: int| a3 <= k < a ==> is_space(#[trigger] l@[k]),
        decreases b - a,
    {
        a = a + 1;
    }
    let ghost a4 = a as int;
    proof {
        lemma_drop_while_range(space_pred(), l@, a3, b1, a4);
    }
    while b > a && is_space_char(l.get_char(b - 1))
        invariant
            n == l@.len(),
            a4 <= a <= b <= b1 <= n,
            a == a4,
            forall|k: int| b <= k < b1 ==> is_space(#[trigger] l@[k]),
        decreases b,
    {
        b = b - 1;
    }
    let ghost b2 = b as int;
    proof {
        lemma_drop_end_while_range(space_pred(), l@, a4, b1, b2);
        assert(cleaned(l@) == l@.subrange(a4, b2));
    }
    let piece = l.substring_char(a, b);
    String::from_str(piece)
}

/// The lines of `s`, as `str::lines` yields them.
pub fn split_into_lines(s: &str) -> (r: Vec<String>)
    ensures
        line_models(r@) == split_lines(s@),
{
    let n = s.unicode_len();
    let mut r: Vec<String> = Vec::new();
    let mut start: usize = 0;
    proof {
        assert(s@.skip(0) == s@);
        assert(line_models(r@) + split_lines(s@) =~= split_lines(s@));
    }
    while start < n
        invariant
            n == s@.len(),
            start <= n,
            line_models(r@) + split_lines(s@.skip(start as int)) == split_lines(s@),
        decreases n - start,
    {
        let mut j: usize = start;
        while j < n && s.get_char(j) != '\n'
            invariant
                n == s@.len(),
                start <= j <= n,
                forall|k: int| start <= k < j ==> #[trigger] s@[k] != '\n',
            decreases n - j,
        {
            j = j + 1;
        }
        let mut end: usize = j;
        if end > start && s.get_char(end - 1) == '\r' {
            end = end - 1;
        }
        let piece = s.substring_char(start, end);
        let ghost lm0 = line_models(r@);
        let ghost line = s@.subrange(start as int, end as int);
        r.push(String::from_str(piece));
        proof {
            let tail = s@.skip(start as int);
            let jj = j - start;
            assert(forall|k: int|
                0 <= k < jj ==> #[trigger] tail[k] == s@[start + k] && s@[start + k] != '\n');
            lemma_find_newline_is(tail, jj as nat);
            assert(line_models(r@) =~= lm0.push(line));
            assert(strip_cr(s@.subrange(start as int, j as int)) == line) by {
                if end < j {
                    assert(s@.subrange(start as int, j as int).last() == s@[j - 1]);
                    assert(s@.subrange(start as int, j as int).drop_last() =~= line);
                } else {
                    if j > start {
                        assert(s@.subrange(start as int, j as int).last() == s@[j - 1]);
                    }
                    assert(s@.subrange(start as int, j as int) =~= line);
                }
            }
            if j < n {
                assert(tail.take(jj as int) =~= s@.subrange(start as int, j as int));
                assert(tail.skip(jj as int + 1) =~= s@.skip(j as int + 1));
                assert(split_lines(tail) == seq![line] + split_lines(s@.skip(j as int + 1)));
                assert(lm0.push(line) + split_lines(s@.skip(j as int + 1)) =~= lm0 + split_lines(
                    tail,
                ));
            } else {
                assert(tail =~= s@.subrange(start as int, j as int));
                assert(split_lines(tail) == seq![line]);
                assert(s@.skip(n as int).len() == 0);
                assert(split_lines(s@.skip(n as int)) == Seq::<Seq<char>>::empty());
                assert(lm0.push(line) + split_lines(s@.skip(n as int)) =~= lm0 + split_lines(
                    tail,
                ));
            }
        }
        start = if j < n {
            j + 1
        } else {
            n
        };
    }
    proof {
        assert(s@.skip(n as int).len() == 0);
        assert(split_lines(s@.skip(n as int)) == Seq::<Seq<char>>::empty());
        assert(line_models(r@) + split_lines(s@.skip(n as int)) =~= line_models(r@));
    }
    r
}

/// Shape generated text into slide suggestions: keep the lines that hold
/// a dash or a dot, and clean each one up.
pub fn format_slide_suggestions(text: &str) -> (r: Vec<String>)
    ensures
        line_models(r@) == suggestions_of(text@),
{
    let lines = split_into_lines(text);
    let mut r: Vec<String> = Vec::new();
    let mut i: usize = 0;
    proof {
        assert(line_models(lines@).take(0) =~= Seq::<Seq<char>>::empty());
        assert(Seq::<Seq<char>>::empty().filter(marker_pred()) =~= Seq::<Seq<char>>::empty())
            by {
            reveal(Seq::filter);
        }
        assert(line_models(r@) =~= Seq::<Seq<char>>::empty().map_values(cleaned_fn()));
    }
    while i < lines.len()
        invariant
            i <= lines@.len(),
            line_models(lines@) == split_lines(text@),
            line_models(r@) == line_models(lines@).take(i as int).filter(marker_pred()).map_values(
                cleaned_fn(),
            ),
        decreases lines@.len() - i,
    {
        let ghost lm = line_models(lines@);
        let ghost taken = lm.take(i as int);
        let line: &String = &lines[i];
        assert(line@ == lm[i as int]);
        let ghost lm0 = line_models(r@);
        if has_marker_line(line.as_str()) {
            r.push(clean_line(line.as_str()));
            proof {
                assert(line_models(r@) =~= lm0.push(cleaned(lm[i as int])));
            }
        }
        proof {
            assert(lm.take(i + 1) =~= taken.push(lm[i as int]));
            taken.lemma_filter_push(lm[i as int], marker_pred());
            if has_marker(lm[i as int]) {
                taken.filter(marker_pred()).lemma_push_map_commute(
                    cleaned_fn(),
                    lm[i as int],
                );
            }
        }
        i = i + 1;
    }
    proof {
        assert(line_models(lines@).take(lines@.len() as int) =~= line_models(lines@));
    }
    r
}

/// The greeting for `name`.
pub fn greet(name: String) -> (r: String)
    ensures
        r@ == "Hello, "@ + name@ + "!"@,
{
    let mut r = String::from_str("Hello, ");
    r.append(name.as_str());
    r.append("!");
    r
}

/// The text of a chat reply: the message content when the response carries
/// one, the given fallback otherwise.
pub fn chat_reply(content: Option<String>, fallback: String) -> (r: String)
    ensures
        r@ == match content {
            Some(m) => m@,
            None => fallback@,
        },
{
    match content {
        Some(m) => m,
        None => fallback,
    }
}

} // verus!
