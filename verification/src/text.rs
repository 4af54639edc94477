//! Text as sequences of characters: searching, cutting, replacing, and
//! splitting into lines and words.
use vstd::prelude::*;

verus! {

/// `String::push` puts a character at the end of a string.
pub assume_specification[ String::push ](s: &mut String, c: char)
    ensures
        final(s)@ == old(s)@.push(c),
;

/// What `str::to_lowercase` makes of a text.
pub uninterp spec fn lowercased(s: Seq<char>) -> Seq<char>;

/// `str::to_lowercase` gives the text in lower case, by Unicode's rules: the
/// same for the same text. What those rules do to each character is not said.
pub assume_specification[ str::to_lowercase ](s: &str) -> (r: String)
    ensures
        r@ == lowercased(s@),
;

/// The characters of a string.
pub fn chars_of(s: &str) -> (r: Vec<char>)
    ensures
        r@ == s@,
{
    let mut out: Vec<char> = Vec::new();
    for c in it: s.chars()
        invariant
            it.seq() == s@,
            out@ == it.seq().take(it.index() as int),
    {
        out.push(c);
        assert(it.seq().take(it.index() + 1) =~= it.seq().take(it.index() as int).push(c));
    }
    assert(s@.take(s@.len() as int) =~= s@);
    out
}

/// The string made of some characters.
pub fn text_of(s: &Vec<char>) -> (r: String)
    ensures
        r@ == s@,
{
    let mut out = String::new();
    let mut i: usize = 0;
    while i < s.len()
        invariant
            i <= s.len(),
            out@ =~= s@.take(i as int),
        decreases s.len() - i,
    {
        out.push(s[i]);
        i = i + 1;
    }
    assert(s@.take(s@.len() as int) =~= s@);
    out
}

/// Put more text at the end.
pub fn put(out: &mut Vec<char>, s: &str)
    ensures
        final(out)@ == old(out)@ + s@,
{
    let more = chars_of(s);
    put_all(out, &more);
}

/// Put more characters at the end.
pub fn put_all(out: &mut Vec<char>, more: &Vec<char>)
    ensures
        final(out)@ == old(out)@ + more@,
{
    let mut i: usize = 0;
    while i < more.len()
        invariant
            i <= more.len(),
            out@ =~= old(out)@ + more@.take(i as int),
        decreases more.len() - i,
    {
        out.push(more[i]);
        i = i + 1;
    }
    assert(more@.take(more@.len() as int) =~= more@);
}

/// The characters from `i` up to `j`.
pub fn cut(s: &Vec<char>, i: usize, j: usize) -> (r: Vec<char>)
    requires
        i <= j <= s.len(),
    ensures
        r@ == s@.subrange(i as int, j as int),
{
    let mut out: Vec<char> = Vec::new();
    let mut k: usize = i;
    while k < j
        invariant
            i <= k <= j <= s.len(),
            out@ =~= s@.subrange(i as int, k as int),
        decreases j - k,
    {
        out.push(s[k]);
        k = k + 1;
    }
    out
}

/// `pat` stands in `s` at position `i`.
pub open spec fn occurs_at(s: Seq<char>, pat: Seq<char>, i: int) -> bool {
    0 <= i && i + pat.len() <= s.len() && s.subrange(i, i + pat.len()) == pat
}

/// The first position at or after `i` where `pat` stands in `s`.
pub open spec fn spec_find_from(s: Seq<char>, pat: Seq<char>, i: int) -> Option<int>
    decreases s.len() - i + 1,
{
    if i < 0 || i + pat.len() > s.len() {
        None
    } else if occurs_at(s, pat, i) {
        Some(i)
    } else {
        spec_find_from(s, pat, i + 1)
    }
}

/// The first position where `pat` stands in `s`.
pub open spec fn spec_find(s: Seq<char>, pat: Seq<char>) -> Option<int> {
    spec_find_from(s, pat, 0)
}

/// The last position at or before `i` where `pat` stands in `s`.
pub open spec fn spec_rfind_from(s: Seq<char>, pat: Seq<char>, i: int) -> Option<int>
    decreases i + 1,
{
    if i < 0 {
        None
    } else if occurs_at(s, pat, i) {
        Some(i)
    } else {
        spec_rfind_from(s, pat, i - 1)
    }
}

/// The last position where `pat` stands in `s`.
pub open spec fn spec_rfind(s: Seq<char>, pat: Seq<char>) -> Option<int> {
    spec_rfind_from(s, pat, s.len() - pat.len())
}

/// A position found is an occurrence, and nothing earlier is one; where
/// nothing is found, nothing occurs.
pub proof fn law_find(s: Seq<char>, pat: Seq<char>, from: int)
    requires
        from >= 0,
    ensures
        match spec_find_from(s, pat, from) {
            Some(i) => {
                &&& from <= i
                &&& occurs_at(s, pat, i)
                &&& forall|j: int| from <= j < i ==> !occurs_at(s, pat, j)
            },
            None => forall|j: int| from <= j ==> !occurs_at(s, pat, j),
        },
    decreases s.len() - from + 1,
{
    if from + pat.len() <= s.len() && !occurs_at(s, pat, from) {
        law_find(s, pat, from + 1);
    }
}

/// The same, from the end.
pub proof fn law_rfind(s: Seq<char>, pat: Seq<char>, from: int)
    ensures
        match spec_rfind_from(s, pat, from) {
            Some(i) => {
                &&& i <= from
                &&& occurs_at(s, pat, i)
                &&& forall|j: int| i < j <= from ==> !occurs_at(s, pat, j)
            },
            None => forall|j: int| j <= from ==> !occurs_at(s, pat, j),
        },
    decreases from + 1,
{
    if from >= 0 && !occurs_at(s, pat, from) {
        law_rfind(s, pat, from - 1);
    }
}

/// Whether `pat` stands in `s` at position `i`.
pub fn stands_at(s: &Vec<char>, pat: &Vec<char>, i: usize) -> (r: bool)
    ensures
        r == occurs_at(s@, pat@, i as int),
{
    if i > s.len() || pat.len() > s.len() - i {
        return false;
    }
    let mut k: usize = 0;
    while k < pat.len()
        invariant
            k <= pat.len(),
            i + pat.len() <= s.len(),
            forall|j: int| 0 <= j < k ==> s@[i + j] == #[trigger] pat@[j],
        decreases pat.len() - k,
    {
        if s[i + k] != pat[k] {
            assert(s@.subrange(i as int, i + pat.len())[k as int] != pat@[k as int]);
            return false;
        }
        k = k + 1;
    }
    assert(s@.subrange(i as int, i + pat.len()) =~= pat@);
    true
}

pub open spec fn opt_index(r: Option<usize>) -> Option<int> {
    match r {
        Some(i) => Some(i as int),
        None => None,
    }
}

/// The first position at or after `from` where `pat` stands in `s`.
pub fn find_from(s: &Vec<char>, pat: &Vec<char>, from: usize) -> (r: Option<usize>)
    ensures
        opt_index(r) == spec_find_from(s@, pat@, from as int),
        r is Some ==> from <= r->0 && r->0 + pat.len() <= s.len(),
{
    if pat.len() > s.len() {
        return None;
    }
    let last: usize = s.len() - pat.len();
    let mut i: usize = from;
    while i <= last
        invariant
            from <= i,
            last + pat.len() == s.len(),
            spec_find_from(s@, pat@, from as int) == spec_find_from(s@, pat@, i as int),
        decreases s.len() - i,
    {
        if stands_at(s, pat, i) {
            return Some(i);
        }
        if i == last {
            assert(spec_find_from(s@, pat@, i + 1) is None);
            return None;
        }
        i = i + 1;
    }
    None
}

/// The first position where `pat` stands in `s`.
pub fn find(s: &Vec<char>, pat: &Vec<char>) -> (r: Option<usize>)
    ensures
        opt_index(r) == spec_find(s@, pat@),
        r is Some ==> r->0 + pat.len() <= s.len(),
{
    find_from(s, pat, 0)
}

/// The last position where `pat` stands in `s`.
pub fn rfind(s: &Vec<char>, pat: &Vec<char>) -> (r: Option<usize>)
    ensures
        opt_index(r) == spec_rfind(s@, pat@),
        r is Some ==> r->0 + pat.len() <= s.len(),
{
    if pat.len() > s.len() {
        return None;
    }
    let mut i: usize = s.len() - pat.len();
    loop
        invariant
            i + pat.len() <= s.len(),
            spec_rfind(s@, pat@) == spec_rfind_from(s@, pat@, i as int),
        decreases i,
    {
        if stands_at(s, pat, i) {
            return Some(i);
        }
        if i == 0 {
            assert(spec_rfind_from(s@, pat@, -1) is None);
            return None;
        }
        i = i - 1;
    }
}

pub open spec fn spec_starts_with(s: Seq<char>, pat: Seq<char>) -> bool {
    occurs_at(s, pat, 0)
}

pub fn starts_with(s: &Vec<char>, pat: &str) -> (r: bool)
    ensures
        r == spec_starts_with(s@, pat@),
{
    stands_at(s, &chars_of(pat), 0)
}

pub open spec fn spec_ends_with(s: Seq<char>, pat: Seq<char>) -> bool {
    occurs_at(s, pat, s.len() - pat.len())
}

pub fn ends_with(s: &Vec<char>, pat: &str) -> (r: bool)
    ensures
        r == spec_ends_with(s@, pat@),
{
    let p = chars_of(pat);
    if p.len() > s.len() {
        return false;
    }
    stands_at(s, &p, s.len() - p.len())
}

pub open spec fn spec_contains(s: Seq<char>, pat: Seq<char>) -> bool {
    spec_find(s, pat) is Some
}

pub fn contains(s: &Vec<char>, pat: &str) -> (r: bool)
    ensures
        r == spec_contains(s@, pat@),
{
    find(s, &chars_of(pat)).is_some()
}

/// Whether two texts are the same.
pub fn same(a: &Vec<char>, b: &str) -> (r: bool)
    ensures
        r == (a@ == b@),
{
    let p = chars_of(b);
    if a.len() != p.len() {
        return false;
    }
    let r = stands_at(a, &p, 0);
    assert(a@.subrange(0, a@.len() as int) =~= a@);
    r
}

/// `s` with every `pat` in it, from the left, replaced by `with`.
pub open spec fn spec_replace(s: Seq<char>, pat: Seq<char>, with: Seq<char>) -> Seq<char>
    decreases s.len(),
{
    if pat.len() == 0 || s.len() < pat.len() {
        s
    } else if occurs_at(s, pat, 0) {
        with + spec_replace(s.skip(pat.len() as int), pat, with)
    } else {
        seq![s[0]] + spec_replace(s.skip(1), pat, with)
    }
}

/// `s` with every `pat` in it, from the left, replaced by `with`.
pub fn replace(s: &Vec<char>, pat: &Vec<char>, with: &Vec<char>) -> (r: Vec<char>)
    requires
        pat.len() > 0,
    ensures
        r@ == spec_replace(s@, pat@, with@),
{
    let mut out: Vec<char> = Vec::new();
    let mut i: usize = 0;
    assert(s@.skip(0) =~= s@);
    assert(out@ + spec_replace(s@.skip(0), pat@, with@) =~= spec_replace(s@, pat@, with@));
    while i < s.len() && pat.len() <= s.len() - i
        invariant
            i <= s.len(),
            pat.len() > 0,
            out@ + spec_replace(s@.skip(i as int), pat@, with@) == spec_replace(s@, pat@, with@),
        decreases s.len() - i,
    {
        let ghost rest = s@.skip(i as int);
        assert(rest.subrange(0, pat.len() as int) =~= s@.subrange(i as int, i + pat.len()));
        assert(occurs_at(rest, pat@, 0) == occurs_at(s@, pat@, i as int));
        if stands_at(s, pat, i) {
            let ghost before = out@;
            put_all(&mut out, with);
            i = i + pat.len();
            proof {
                assert(rest.skip(pat.len() as int) =~= s@.skip(i as int));
                assert(before + (with@ + spec_replace(s@.skip(i as int), pat@, with@)) =~= out@
                    + spec_replace(s@.skip(i as int), pat@, with@));
            }
        } else {
            let ghost before = out@;
            out.push(s[i]);
            i = i + 1;
            proof {
                assert(rest.skip(1) =~= s@.skip(i as int));
                assert(before + (seq![rest[0]] + spec_replace(s@.skip(i as int), pat@, with@))
                    =~= out@ + spec_replace(s@.skip(i as int), pat@, with@));
            }
        }
    }
    let tail = cut(s, i, s.len());
    assert(tail@ =~= s@.skip(i as int));
    put_all(&mut out, &tail);
    out
}

/// The texts that a list of character lists spells.
pub open spec fn views(v: Seq<Vec<char>>) -> Seq<Seq<char>> {
    v.map_values(|t: Vec<char>| t@)
}

/// A line without the carriage return before its line break.
pub open spec fn spec_strip_cr(s: Seq<char>) -> Seq<char> {
    if s.len() > 0 && s.last() == '\r' {
        s.drop_last()
    } else {
        s
    }
}

/// The position of the first line break at or after `i`.
pub open spec fn spec_break_from(s: Seq<char>, i: int) -> int
    decreases s.len() - i,
{
    if i >= s.len() {
        s.len() as int
    } else if s[i] == '\n' {
        i
    } else {
        spec_break_from(s, i + 1)
    }
}

/// The lines of a text. A line break ends a line rather than starting one.
pub open spec fn spec_lines(s: Seq<char>) -> Seq<Seq<char>>
    decreases s.len(),
{
    let i = spec_break_from(s, 0);
    if s.len() == 0 {
        seq![]
    } else if i >= s.len() || i < 0 {
        seq![s]
    } else {
        seq![spec_strip_cr(s.take(i))] + spec_lines(s.skip(i + 1))
    }
}

proof fn lemma_break(s: Seq<char>, i: int)
    requires
        0 <= i <= s.len(),
    ensures
        i <= spec_break_from(s, i) <= s.len(),
        spec_break_from(s, i) < s.len() ==> s[spec_break_from(s, i)] == '\n',
    decreases s.len() - i,
{
    if i < s.len() && s[i] != '\n' {
        lemma_break(s, i + 1);
    }
}

/// Where a line break stands does not depend on what is left of the search.
proof fn lemma_break_skip(s: Seq<char>, from: int, i: int)
    requires
        0 <= from <= i <= s.len(),
    ensures
        spec_break_from(s.skip(from), i - from) == spec_break_from(s, i) - from,
    decreases s.len() - i,
{
    if i < s.len() && s[i] != '\n' {
        lemma_break_skip(s, from, i + 1);
    }
}

/// The lines of a text.
pub fn lines(s: &Vec<char>) -> (r: Vec<Vec<char>>)
    ensures
        views(r@) == spec_lines(s@),
{
    let mut out: Vec<Vec<char>> = Vec::new();
    let mut from: usize = 0;
    assert(s@.skip(0) =~= s@);
    assert(views(out@) + spec_lines(s@.skip(0)) =~= spec_lines(s@));
    while from < s.len()
        invariant
            from <= s.len(),
            views(out@) + spec_lines(s@.skip(from as int)) == spec_lines(s@),
        decreases s.len() - from,
    {
        let mut i: usize = from;
        proof {
            lemma_break(s@, from as int);
        }
        while i < s.len() && s[i] != '\n'
            invariant
                from <= i <= s.len(),
                spec_break_from(s@, from as int) == spec_break_from(s@, i as int),
            decreases s.len() - i,
        {
            i = i + 1;
        }
        let ghost rest = s@.skip(from as int);
        let ghost before = out@;
        proof {
            lemma_break_skip(s@, from as int, from as int);
            assert(spec_break_from(rest, 0) == i - from);
        }
        if i < s.len() {
            let stop: usize = if i > from && s[i - 1] == '\r' {
                i - 1
            } else {
                i
            };
            let line = cut(s, from, stop);
            proof {
                assert(rest.take(i - from) =~= s@.subrange(from as int, i as int));
                assert(line@ =~= spec_strip_cr(rest.take(i - from)));
                assert(rest.skip(i - from + 1) =~= s@.skip(i + 1));
            }
            out.push(line);
            proof {
                assert(views(out@) =~= views(before).push(line@));
                assert(views(before) + (seq![line@] + spec_lines(s@.skip(i + 1))) =~= views(out@)
                    + spec_lines(s@.skip(i + 1)));
            }
            from = i + 1;
        } else {
            let line = cut(s, from, i);
            assert(line@ =~= rest);
            out.push(line);
            proof {
                assert(views(out@) =~= views(before).push(line@));
                assert(s@.skip(i as int).len() == 0);
                assert(views(before) + seq![line@] =~= views(out@) + spec_lines(s@.skip(i as int)));
            }
            from = i;
        }
    }
    assert(views(out@) + spec_lines(s@.skip(from as int)) =~= views(out@));
    out
}

/// A text that a line break ends, or an empty one, has its own lines whatever
/// follows.
pub proof fn law_lines_join(a: Seq<char>, b: Seq<char>)
    requires
        a.len() == 0 || a.last() == '\n',
    ensures
        spec_lines(a + b) == spec_lines(a) + spec_lines(b),
    decreases a.len(),
{
    if a.len() == 0 {
        assert(a + b =~= b);
        assert(spec_lines(a) + spec_lines(b) =~= spec_lines(b));
    } else {
        lemma_break(a, 0);
        lemma_break_found(a, 0, a.len() - 1);
        let i = spec_break_from(a, 0);
        lemma_break_prefix(a, b, 0);
        let s = a + b;
        assert(s.take(i) =~= a.take(i));
        assert(s.skip(i + 1) =~= a.skip(i + 1) + b);
        if a.skip(i + 1).len() > 0 {
            assert(a.skip(i + 1).last() == a.last());
        }
        law_lines_join(a.skip(i + 1), b);
        let head = seq![spec_strip_cr(a.take(i))];
        assert(head + (spec_lines(a.skip(i + 1)) + spec_lines(b)) =~= (head + spec_lines(
            a.skip(i + 1),
        )) + spec_lines(b));
    }
}

proof fn lemma_break_found(s: Seq<char>, i: int, at: int)
    requires
        0 <= i <= at < s.len(),
        s[at] == '\n',
    ensures
        spec_break_from(s, i) <= at,
    decreases at - i,
{
    if s[i] != '\n' {
        lemma_break_found(s, i + 1, at);
    }
}

proof fn lemma_break_prefix(a: Seq<char>, b: Seq<char>, i: int)
    requires
        0 <= i <= a.len(),
        spec_break_from(a, i) < a.len(),
    ensures
        spec_break_from(a + b, i) == spec_break_from(a, i),
    decreases a.len() - i,
{
    if i < a.len() && a[i] != '\n' {
        lemma_break_prefix(a, b, i + 1);
    }
}

/// A text without a line break, ended by one, is one line.
pub proof fn law_single_line(s: Seq<char>)
    requires
        forall|k: int| 0 <= k < s.len() ==> #[trigger] s[k] != '\n',
    ensures
        spec_lines(s + seq!['\n']) == seq![spec_strip_cr(s)],
{
    let t = s + seq!['\n'];
    lemma_break(t, 0);
    lemma_break_found(t, 0, s.len() as int);
    let i = spec_break_from(t, 0);
    if i < s.len() {
        assert(t[i] == s[i]);
    }
    assert(t.take(i) =~= s);
    assert(t.skip(i + 1) =~= Seq::<char>::empty());
    assert(spec_lines(t.skip(i + 1)) =~= seq![]);
    assert(seq![spec_strip_cr(s)] + spec_lines(t.skip(i + 1)) =~= seq![spec_strip_cr(s)]);
}

/// No line of a text holds a line break.
pub proof fn law_lines_hold_no_break(s: Seq<char>)
    ensures
        forall|i: int, k: int|
            0 <= i < spec_lines(s).len() && 0 <= k < spec_lines(s)[i].len()
                ==> #[trigger] spec_lines(s)[i][k] != '\n',
    decreases s.len(),
{
    lemma_break(s, 0);
    lemma_before_break(s, 0);
    let i = spec_break_from(s, 0);
    if s.len() > 0 {
        if i < s.len() {
            law_lines_hold_no_break(s.skip(i + 1));
            let first = spec_strip_cr(s.take(i));
            let rest = spec_lines(s.skip(i + 1));
            assert(spec_lines(s) == seq![first] + rest);
            assert forall|j: int, k: int|
                0 <= j < spec_lines(s).len() && 0 <= k < spec_lines(s)[j].len() implies
                #[trigger] spec_lines(s)[j][k] != '\n' by {
                if j == 0 {
                    assert(first[k] == s[k]);
                } else {
                    assert(spec_lines(s)[j] == rest[j - 1]);
                    assert(rest[j - 1][k] != '\n');
                }
            }
        }
    }
}

proof fn lemma_before_break(s: Seq<char>, i: int)
    requires
        0 <= i <= s.len(),
    ensures
        forall|k: int| i <= k < spec_break_from(s, i) ==> #[trigger] s[k] != '\n',
    decreases s.len() - i,
{
    if i < s.len() && s[i] != '\n' {
        lemma_before_break(s, i + 1);
    }
}

/// Unicode white space.
pub open spec fn spec_is_space(c: char) -> bool {
    ||| '\u{9}' <= c <= '\u{d}'
    ||| c == '\u{20}'
    ||| c == '\u{85}'
    ||| c == '\u{a0}'
    ||| c == '\u{1680}'
    ||| '\u{2000}' <= c <= '\u{200a}'
    ||| c == '\u{2028}'
    ||| c == '\u{2029}'
    ||| c == '\u{202f}'
    ||| c == '\u{205f}'
    ||| c == '\u{3000}'
}

pub fn is_space(c: char) -> (r: bool)
    ensures
        r == spec_is_space(c),
{
    ('\u{9}' <= c && c <= '\u{d}') || c == '\u{20}' || c == '\u{85}' || c == '\u{a0}' || c
        == '\u{1680}' || ('\u{2000}' <= c && c <= '\u{200a}') || c == '\u{2028}' || c == '\u{2029}'
        || c == '\u{202f}' || c == '\u{205f}' || c == '\u{3000}'
}

/// A text without the white space it starts with.
pub open spec fn spec_trim_start(s: Seq<char>) -> Seq<char>
    decreases s.len(),
{
    if s.len() > 0 && spec_is_space(s[0]) {
        spec_trim_start(s.skip(1))
    } else {
        s
    }
}

pub fn trim_start(s: &Vec<char>) -> (r: Vec<char>)
    ensures
        r@ == spec_trim_start(s@),
{
    let mut i: usize = 0;
    assert(s@.skip(0) =~= s@);
    while i < s.len() && is_space(s[i])
        invariant
            i <= s.len(),
            spec_trim_start(s@.skip(i as int)) == spec_trim_start(s@),
        decreases s.len() - i,
    {
        assert(s@.skip(i as int).skip(1) =~= s@.skip(i + 1));
        i = i + 1;
    }
    let r = cut(s, i, s.len());
    assert(r@ =~= s@.skip(i as int));
    r
}

/// How many characters stand before the first white space.
pub open spec fn spec_word_len(s: Seq<char>) -> int
    decreases s.len(),
{
    if s.len() == 0 || spec_is_space(s[0]) {
        0
    } else {
        1 + spec_word_len(s.skip(1))
    }
}

proof fn lemma_word_len(s: Seq<char>)
    ensures
        0 <= spec_word_len(s) <= s.len(),
        s.len() > 0 && !spec_is_space(s[0]) ==> spec_word_len(s) >= 1,
    decreases s.len(),
{
    if s.len() > 0 && !spec_is_space(s[0]) {
        lemma_word_len(s.skip(1));
    }
}

proof fn lemma_trim_start_len(s: Seq<char>)
    ensures
        spec_trim_start(s).len() <= s.len(),
        spec_trim_start(s).len() > 0 ==> !spec_is_space(spec_trim_start(s)[0]),
    decreases s.len(),
{
    if s.len() > 0 && spec_is_space(s[0]) {
        lemma_trim_start_len(s.skip(1));
    }
}

/// The words of a text: what stands between its white space.
pub open spec fn spec_words(s: Seq<char>) -> Seq<Seq<char>>
    decreases s.len(),
{
    let t = spec_trim_start(s);
    let n = spec_word_len(t);
    if t.len() == 0 || n <= 0 || n > t.len() || t.len() > s.len() {
        seq![]
    } else {
        seq![t.take(n)] + spec_words(t.skip(n))
    }
}

/// The words of a text.
pub fn words(s: &Vec<char>) -> (r: Vec<Vec<char>>)
    ensures
        views(r@) == spec_words(s@),
{
    let mut out: Vec<Vec<char>> = Vec::new();
    let mut rest = cut(s, 0, s.len());
    assert(rest@ =~= s@);
    assert(views(out@) + spec_words(rest@) =~= spec_words(s@));
    loop
        invariant
            views(out@) + spec_words(rest@) == spec_words(s@),
        decreases rest.len(),
    {
        let t = trim_start(&rest);
        proof {
            lemma_trim_start_len(rest@);
            lemma_word_len(t@);
        }
        if t.len() == 0 {
            assert(views(out@) + spec_words(rest@) =~= views(out@));
            return out;
        }
        let mut n: usize = 0;
        assert(t@.skip(0) =~= t@);
        while n < t.len() && !is_space(t[n])
            invariant
                n <= t.len(),
                n + spec_word_len(t@.skip(n as int)) == spec_word_len(t@),
            decreases t.len() - n,
        {
            assert(t@.skip(n as int).skip(1) =~= t@.skip(n + 1));
            n = n + 1;
        }
        assert(spec_word_len(t@.skip(n as int)) == 0);
        let word = cut(&t, 0, n);
        let ghost before = out@;
        assert(word@ =~= t@.take(n as int));
        let next = cut(&t, n, t.len());
        assert(next@ =~= t@.skip(n as int));
        out.push(word);
        proof {
            assert(views(out@) =~= views(before).push(word@));
            assert(views(before) + (seq![word@] + spec_words(next@)) =~= views(out@) + spec_words(
                next@,
            ));
        }
        rest = next;
    }
}

/// Trimming takes off the white space a text starts with, and no more.
/// Returned is how much that is.
pub proof fn law_trim_start(s: Seq<char>) -> (n: int)
    ensures
        0 <= n <= s.len(),
        spec_trim_start(s) == s.skip(n),
        forall|i: int| 0 <= i < n ==> spec_is_space(#[trigger] s[i]),
        n < s.len() ==> !spec_is_space(s[n]),
    decreases s.len(),
{
    if s.len() > 0 && spec_is_space(s[0]) {
        let n = law_trim_start(s.skip(1));
        assert(s.skip(1).skip(n) =~= s.skip(n + 1));
        assert forall|i: int| 0 <= i < n + 1 implies spec_is_space(#[trigger] s[i]) by {
            if i > 0 {
                assert(spec_is_space(s.skip(1)[i - 1]));
            }
        }
        n + 1
    } else {
        assert(s.skip(0) =~= s);
        0
    }
}

/// Blanks, tabs and line ends are white space; what prints is not.
pub proof fn law_white_space(c: char)
    ensures
        c == ' ' || c == '\t' || c == '\n' || c == '\r' ==> spec_is_space(c),
        '!' <= c <= '~' ==> !spec_is_space(c),
{
}

/// A carriage return at the end is taken off, once, and nothing else.
pub proof fn law_strip_cr(s: Seq<char>)
    ensures
        spec_strip_cr(s + seq!['\r']) == s,
        s.len() == 0 || s[s.len() - 1] != '\r' ==> spec_strip_cr(s) == s,
{
    assert((s + seq!['\r']).drop_last() =~= s);
}

/// Replacing works from the left: what stands before the first match is kept,
/// the match is replaced, and the rest is treated the same way; without a
/// match all is kept.
pub proof fn law_replace(s: Seq<char>, pat: Seq<char>, with: Seq<char>, i: int)
    requires
        pat.len() > 0,
    ensures
        (forall|j: int| 0 <= j ==> !occurs_at(s, pat, j)) ==> spec_replace(s, pat, with) == s,
        occurs_at(s, pat, i) && (forall|j: int| 0 <= j < i ==> !occurs_at(s, pat, j))
            ==> spec_replace(s, pat, with) == s.take(i) + with + spec_replace(
            s.skip(i + pat.len()),
            pat,
            with,
        ),
    decreases s.len(),
{
    if s.len() < pat.len() {
    } else if occurs_at(s, pat, 0) {
        assert(s.take(0) + with =~= with);
        assert(s.skip(0 + pat.len() as int) =~= s.skip(pat.len() as int));
    } else {
        let t = s.skip(1);
        law_replace(t, pat, with, i - 1);
        assert forall|j: int| 0 <= j implies #[trigger] occurs_at(t, pat, j) == occurs_at(
            s,
            pat,
            j + 1,
        ) by {
            if j + pat.len() <= t.len() {
                assert(t.subrange(j, j + pat.len()) =~= s.subrange(j + 1, j + 1 + pat.len()));
            }
        }
        if forall|j: int| 0 <= j ==> !occurs_at(s, pat, j) {
            assert(seq![s[0]] + t =~= s);
        }
        if occurs_at(s, pat, i) && (forall|j: int| 0 <= j < i ==> !occurs_at(s, pat, j)) {
            assert(i > 0);
            assert(occurs_at(t, pat, i - 1) == occurs_at(s, pat, i - 1 + 1));
            let tail = spec_replace(s.skip(i + pat.len()), pat, with);
            assert(t.skip(i - 1 + pat.len()) =~= s.skip(i + pat.len()));
            assert(seq![s[0]] + (t.take(i - 1) + with + tail) =~= s.take(i) + with + tail);
        }
    }
}

/// The first word of a text runs from the end of its leading white space to
/// the next white space, or to the end; the other words are those of what
/// follows. White space alone holds no word.
pub proof fn law_words(lead: Seq<char>, word: Seq<char>, rest: Seq<char>)
    requires
        forall|i: int| 0 <= i < lead.len() ==> spec_is_space(#[trigger] lead[i]),
        forall|i: int| 0 <= i < word.len() ==> !spec_is_space(#[trigger] word[i]),
        word.len() > 0,
        rest.len() == 0 || spec_is_space(rest[0]),
    ensures
        spec_words(lead) == Seq::<Seq<char>>::empty(),
        spec_words(lead + word + rest) == seq![word] + spec_words(rest),
{
    lemma_trim_lead(lead, Seq::empty());
    assert(lead + Seq::<char>::empty() =~= lead);
    lemma_trim_lead(lead, word + rest);
    assert(lead + (word + rest) =~= lead + word + rest);
    lemma_word(word, rest);
    let t = word + rest;
    assert(t.take(word.len() as int) =~= word);
    assert(t.skip(word.len() as int) =~= rest);
}

proof fn lemma_trim_lead(lead: Seq<char>, t: Seq<char>)
    requires
        forall|i: int| 0 <= i < lead.len() ==> spec_is_space(#[trigger] lead[i]),
        t.len() == 0 || !spec_is_space(t[0]),
    ensures
        spec_trim_start(lead + t) == t,
    decreases lead.len(),
{
    if lead.len() == 0 {
        assert(lead + t =~= t);
    } else {
        let k = lead.skip(1);
        assert forall|i: int| 0 <= i < k.len() implies spec_is_space(#[trigger] k[i]) by {
            assert(spec_is_space(lead[i + 1]));
        }
        lemma_trim_lead(k, t);
        assert((lead + t).skip(1) =~= k + t);
        assert(spec_is_space(lead[0]));
        assert((lead + t)[0] == lead[0]);
    }
}

proof fn lemma_word(word: Seq<char>, rest: Seq<char>)
    requires
        forall|i: int| 0 <= i < word.len() ==> !spec_is_space(#[trigger] word[i]),
        rest.len() == 0 || spec_is_space(rest[0]),
    ensures
        spec_word_len(word + rest) == word.len(),
    decreases word.len(),
{
    if word.len() == 0 {
        assert(word + rest =~= rest);
    } else {
        let k = word.skip(1);
        assert forall|i: int| 0 <= i < k.len() implies !spec_is_space(#[trigger] k[i]) by {
            assert(!spec_is_space(word[i + 1]));
        }
        lemma_word(k, rest);
        assert((word + rest).skip(1) =~= k + rest);
        assert(!spec_is_space(word[0]));
        assert((word + rest)[0] == word[0]);
    }
}

} // verus!
