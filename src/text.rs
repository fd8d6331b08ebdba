use std::ops::Range;
use vstd::prelude::*;

verus! {

/// Unicode `White_Space` characters, the set that `char::is_whitespace` tests.
pub open spec fn is_space(c: char) -> bool {
    c == '\t' || c == '\n' || c == '\u{0B}' || c == '\u{0C}' || c == '\r' || c == ' '
        || c == '\u{85}' || c == '\u{A0}' || c == '\u{1680}' || ('\u{2000}' <= c
        && c <= '\u{200A}') || c == '\u{2028}' || c == '\u{2029}' || c == '\u{202F}'
        || c == '\u{205F}' || c == '\u{3000}'
}

/// Whether `c` is whitespace.
#[verifier::when_used_as_spec(is_space)]
pub fn is_whitespace(c: char) -> (r: bool)
    ensures
        r == is_space(c),
{
    c == '\t' || c == '\n' || c == '\u{0B}' || c == '\u{0C}' || c == '\r' || c == ' '
        || c == '\u{85}' || c == '\u{A0}' || c == '\u{1680}' || ('\u{2000}' <= c
        && c <= '\u{200A}') || c == '\u{2028}' || c == '\u{2029}' || c == '\u{202F}'
        || c == '\u{205F}' || c == '\u{3000}'
}

/// Relies on `str::chars` and `collect`: the characters of `s`, in order.
#[verifier::external_body]
pub(crate) fn chars_of(s: &str) -> (r: Vec<char>)
    ensures
        r@ == s@,
{
    s.chars().collect()
}

/// Relies on `FromIterator<&char>` for `String`: the string of the characters of `v`, in order.
#[verifier::external_body]
pub(crate) fn string_of(v: &[char]) -> (r: String)
    ensures
        r@ == v@,
{
    v.iter().collect()
}

/// The characters of `v` in `[start, end)`.
pub(crate) fn copy_range(v: &Vec<char>, start: usize, end: usize) -> (r: Vec<char>)
    requires
        start <= end <= v@.len(),
    ensures
        r@ == v@.subrange(start as int, end as int),
{
    let mut out: Vec<char> = Vec::new();
    let mut i: usize = start;
    while i < end
        invariant
            start <= i <= end <= v@.len(),
            out@ == v@.subrange(start as int, i as int),
        decreases end - i,
    {
        out.push(v[i]);
        proof {
            assert(v@.subrange(start as int, i + 1) == v@.subrange(start as int, i as int).push(
                v@[i as int],
            ));
        }
        i = i + 1;
    }
    out
}

/// The whole text of a document, as a sequence of characters.
#[derive(Debug, Clone)]
pub struct RawText {
    text: Vec<char>,
}

impl View for RawText {
    type V = Seq<char>;

    closed spec fn view(&self) -> Seq<char> {
        self.text@
    }
}

/// The text `t` with the characters in `[start, end)` replaced by `r`.
pub open spec fn spliced(t: Seq<char>, start: int, end: int, r: Seq<char>) -> Seq<char> {
    t.subrange(0, start) + r + t.subrange(end, t.len() as int)
}

impl RawText {
    pub fn new(text: String) -> (r: RawText)
        ensures
            r@ == text@,
    {
        RawText { text: chars_of(text.as_str()) }
    }

    pub fn empty() -> (r: RawText)
        ensures
            r@ == Seq::<char>::empty(),
    {
        RawText { text: Vec::new() }
    }

    pub fn to_string(&self) -> (r: String)
        ensures
            r@ == self@,
    {
        string_of(self.text.as_slice())
    }

    pub fn len(&self) -> (r: usize)
        ensures
            r == self@.len(),
    {
        self.text.len()
    }

    /// The characters of the text.
    pub(crate) fn chars(&self) -> (r: &Vec<char>)
        ensures
            r@ == self@,
    {
        &self.text
    }

    /// Replaces the characters in `range` by `replacement`.
    pub fn replace(&mut self, range: Range<usize>, replacement: String)
        requires
            range.start <= range.end <= old(self)@.len(),
            old(self)@.len() - (range.end - range.start) + replacement@.len() <= usize::MAX,
        ensures
            final(self)@ == spliced(old(self)@, range.start as int, range.end as int, replacement@),
    {
        let rep = chars_of(replacement.as_str());
        let mut out: Vec<char> = Vec::new();
        let mut i: usize = 0;
        while i < range.start
            invariant
                i <= range.start <= range.end <= self.text@.len(),
                out@ == self.text@.subrange(0, i as int),
            decreases range.start - i,
        {
            out.push(self.text[i]);
            i = i + 1;
        }
        let mut j: usize = 0;
        while j < rep.len()
            invariant
                j <= rep@.len(),
                rep@ == replacement@,
                out@ == self.text@.subrange(0, range.start as int) + rep@.subrange(0, j as int),
            decreases rep.len() - j,
        {
            out.push(rep[j]);
            j = j + 1;
        }
        assert(rep@.subrange(0, j as int) == rep@);
        let mut k: usize = range.end;
        while k < self.text.len()
            invariant
                range.end <= k <= self.text@.len(),
                out@ == self.text@.subrange(0, range.start as int) + rep@ + self.text@.subrange(
                    range.end as int,
                    k as int,
                ),
            decreases self.text.len() - k,
        {
            out.push(self.text[k]);
            proof {
                assert(self.text@.subrange(range.end as int, k + 1) == self.text@.subrange(
                    range.end as int,
                    k as int,
                ).push(self.text@[k as int]));
            }
            k = k + 1;
        }
        self.text = out;
    }

    /// The characters in `range`.
    pub fn read_range(&self, range: Range<usize>) -> (r: String)
        requires
            range.start <= range.end <= self@.len(),
        ensures
            r@ == self@.subrange(range.start as int, range.end as int),
    {
        let part = copy_range(&self.text, range.start, range.end);
        string_of(part.as_slice())
    }
}


/// The views of a sequence of character vectors.
pub open spec fn texts(v: Seq<Vec<char>>) -> Seq<Seq<char>> {
    v.map_values(|x: Vec<char>| x@)
}

/// The pieces of `t` between its newline characters: one more than there are newlines.
pub open spec fn pieces(t: Seq<char>) -> Seq<Seq<char>>
    decreases t.len(),
{
    if t.len() == 0 {
        seq![Seq::<char>::empty()]
    } else {
        let p = pieces(t.drop_last());
        if t.last() == '\n' {
            p.push(Seq::<char>::empty())
        } else {
            p.update(p.len() - 1, p.last().push(t.last()))
        }
    }
}

pub proof fn lemma_pieces_len(t: Seq<char>)
    ensures
        pieces(t).len() >= 1,
    decreases t.len(),
{
    if t.len() > 0 {
        lemma_pieces_len(t.drop_last());
    }
}

/// Splits `t` at its newline characters.
pub(crate) fn split_pieces(t: &Vec<char>) -> (r: Vec<Vec<char>>)
    ensures
        texts(r@) == pieces(t@),
{
    let mut done: Vec<Vec<char>> = Vec::new();
    let mut cur: Vec<char> = Vec::new();
    let mut i: usize = 0;
    assert(t@.subrange(0, 0) == Seq::<char>::empty());
    assert(texts(done@).push(cur@) == seq![Seq::<char>::empty()]);
    while i < t.len()
        invariant
            i <= t@.len(),
            texts(done@).push(cur@) == pieces(t@.subrange(0, i as int)),
        decreases t.len() - i,
    {
        let c = t[i];
        let ghost prefix = t@.subrange(0, i + 1);
        assert(prefix.drop_last() == t@.subrange(0, i as int));
        if c == '\n' {
            let ghost old_done = done@;
            let ghost old_cur = cur@;
            done.push(cur);
            cur = Vec::new();
            assert(texts(done@) == texts(old_done).push(old_cur));
            assert(texts(done@).push(cur@) == texts(old_done).push(old_cur).push(Seq::<char>::empty()));
        } else {
            let ghost old_cur = cur@;
            cur.push(c);
            assert(texts(done@).push(cur@) == texts(done@).push(old_cur).update(
                texts(done@).len() as int,
                old_cur.push(c),
            ));
        }
        i = i + 1;
    }
    assert(t@.subrange(0, t@.len() as int) == t@);
    let ghost old_done = done@;
    let ghost old_cur = cur@;
    done.push(cur);
    assert(texts(done@) == texts(old_done).push(old_cur));
    done
}

/// An optional index, as an integer.
pub open spec fn opt_int(o: Option<usize>) -> Option<int> {
    match o {
        Some(b) => Some(b as int),
        None => None,
    }
}

/// Whether a word (a run of non-whitespace characters) starts at index `i` of `t`.
pub open spec fn is_word_start(t: Seq<char>, i: int) -> bool {
    0 <= i < t.len() && !is_space(t[i]) && (i == 0 || is_space(t[i - 1]))
}

/// The index of the first character at or after `i` that is not whitespace, or `i` itself
/// where `i` is at or past the end.
pub open spec fn skip_spaces(t: Seq<char>, i: int) -> int
    decreases t.len() - i,
{
    if i >= t.len() || !is_space(t[i]) {
        i
    } else {
        skip_spaces(t, i + 1)
    }
}

/// The last word start before index `i`, or -1 where there is none.
pub open spec fn word_start_before(t: Seq<char>, i: int) -> int
    decreases i,
{
    if i <= 0 {
        -1
    } else if is_word_start(t, i - 1) {
        i - 1
    } else {
        word_start_before(t, i - 1)
    }
}

/// The first word start at or after index `i`, or the length of `t` where there is none.
pub open spec fn word_start_from(t: Seq<char>, i: int) -> int
    decreases t.len() - i,
{
    if i >= t.len() {
        t.len() as int
    } else if is_word_start(t, i) {
        i
    } else {
        word_start_from(t, i + 1)
    }
}

/// The word boundary before `offset`: the start of the nearest word that starts before it;
/// none where no word starts before it.
pub open spec fn previous_boundary(t: Seq<char>, offset: int) -> Option<int> {
    if word_start_before(t, offset) < 0 {
        None
    } else {
        Some(word_start_before(t, offset))
    }
}

/// The word boundary after `offset`: the start of the next word, or the end of the text
/// where the last word runs on to it; none where only whitespace follows `offset`.
pub open spec fn next_boundary(t: Seq<char>, offset: int) -> Option<int> {
    if skip_spaces(t, offset) >= t.len() {
        None
    } else {
        Some(word_start_from(t, offset + 1))
    }
}

pub proof fn lemma_word_start_before_bounds(t: Seq<char>, i: int)
    ensures
        -1 <= word_start_before(t, i),
        i >= 0 ==> word_start_before(t, i) < i,
        word_start_before(t, i) < t.len(),
    decreases i,
{
    if i > 0 && !is_word_start(t, i - 1) {
        lemma_word_start_before_bounds(t, i - 1);
    }
}

pub proof fn lemma_word_start_before_past_end(t: Seq<char>, i: int)
    requires
        i >= t.len(),
    ensures
        word_start_before(t, i) == word_start_before(t, t.len() as int),
    decreases i,
{
    if i > t.len() {
        lemma_word_start_before_past_end(t, i - 1);
    }
}

pub proof fn lemma_word_start_from_bounds(t: Seq<char>, i: int)
    requires
        0 <= i,
    ensures
        i <= t.len() ==> i <= word_start_from(t, i),
        word_start_from(t, i) <= t.len(),
    decreases t.len() - i,
{
    if i < t.len() && !is_word_start(t, i) {
        lemma_word_start_from_bounds(t, i + 1);
    }
}

/// Whether a word starts at index `i` of `t`.
pub(crate) fn word_starts_at(t: &Vec<char>, i: usize) -> (r: bool)
    requires
        i < t@.len(),
    ensures
        r == is_word_start(t@, i as int),
{
    !is_whitespace(t[i]) && (i == 0 || is_whitespace(t[i - 1]))
}

/// The index of the first character of `t` at or after `i` that is not whitespace, or the
/// length of `t`.
pub(crate) fn skip_whitespace(t: &Vec<char>, i: usize) -> (r: usize)
    requires
        i <= t@.len(),
    ensures
        r == skip_spaces(t@, i as int),
        i <= r <= t@.len(),
{
    let mut s: usize = i;
    while s < t.len() && is_whitespace(t[s])
        invariant
            i <= s <= t@.len(),
            skip_spaces(t@, s as int) == skip_spaces(t@, i as int),
        decreases t.len() - s,
    {
        s = s + 1;
    }
    s
}

/// The start of the nearest word that starts before `offset` in `t`; none where no word
/// does.
pub(crate) fn previous_word_start(t: &Vec<char>, offset: usize) -> (r: Option<usize>)
    ensures
        opt_int(r) == previous_boundary(t@, offset as int),
        r matches Some(b) ==> b < offset && b < t@.len(),
{
    if offset == 0 {
        return None;
    }
    let mut i: usize = if offset > t.len() {
        t.len()
    } else {
        offset
    };
    proof {
        if offset > t.len() {
            lemma_word_start_before_past_end(t@, offset as int);
        }
        lemma_word_start_before_bounds(t@, offset as int);
    }
    while i > 0 && !word_starts_at(t, i - 1)
        invariant
            i <= t@.len(),
            i <= offset,
            word_start_before(t@, i as int) == word_start_before(t@, offset as int),
        decreases i,
    {
        i = i - 1;
    }
    if i > 0 {
        Some(i - 1)
    } else {
        None
    }
}

/// The start of the next word after `offset` in `t`, or the length of `t` where the last
/// word runs on to it; none where only whitespace follows `offset`.
pub(crate) fn next_word_start(t: &Vec<char>, offset: usize) -> (r: Option<usize>)
    ensures
        opt_int(r) == next_boundary(t@, offset as int),
        r matches Some(b) ==> offset < b <= t@.len(),
{
    if offset >= t.len() {
        return None;
    }
    if skip_whitespace(t, offset) == t.len() {
        return None;
    }
    let mut i: usize = offset + 1;
    proof {
        lemma_word_start_from_bounds(t@, offset + 1);
    }
    while i < t.len() && !word_starts_at(t, i)
        invariant
            offset < i <= t@.len(),
            word_start_from(t@, i as int) == word_start_from(t@, offset + 1),
        decreases t.len() - i,
    {
        i = i + 1;
    }
    Some(i)
}

/// The width, in characters, at which lines are soft-wrapped.
pub const CHARACTER_COUNT_PER_LINE: usize = 50;

/// The last index before `n` that holds whitespace in `l`.
pub open spec fn last_space_before(l: Seq<char>, n: int) -> Option<int>
    decreases n,
{
    if n <= 0 {
        None
    } else if is_space(l[n - 1]) {
        Some(n - 1)
    } else {
        last_space_before(l, n - 1)
    }
}

/// The soft-wrapped sub-lines of one logical line `l`: while more than the width remains,
/// break after the last whitespace within the width; none where no such whitespace exists.
pub open spec fn wrap_line(l: Seq<char>) -> Option<Seq<Seq<char>>>
    decreases l.len(),
{
    if l.len() <= CHARACTER_COUNT_PER_LINE {
        Some(seq![l])
    } else {
        match last_space_before(l, CHARACTER_COUNT_PER_LINE as int) {
            None => None,
            Some(i) => if 0 <= i < l.len() {
                match wrap_line(l.subrange(i + 1, l.len() as int)) {
                    None => None,
                    Some(rest) => Some(seq![l.subrange(0, i + 1)] + rest),
                }
            } else {
                None
            },
        }
    }
}

proof fn lemma_last_space_before(l: Seq<char>, n: int)
    requires
        0 <= n <= l.len(),
    ensures
        last_space_before(l, n) is None <==> forall|i: int| 0 <= i < n ==> !is_space(l[i]),
        last_space_before(l, n) matches Some(k) ==> 0 <= k < n && is_space(l[k]) && forall|
            j: int,
        |
            k < j < n ==> !is_space(l[j]),
    decreases n,
{
    if n > 0 {
        lemma_last_space_before(l, n - 1);
    }
}

/// A line longer than the width cannot be wrapped when none of its first
/// `CHARACTER_COUNT_PER_LINE` characters is whitespace; when the last whitespace among them
/// is at `k` and the rest after it fits the width, the line wraps into exactly two rows,
/// broken just after `k`.
pub proof fn lemma_first_break(l: Seq<char>)
    requires
        l.len() > CHARACTER_COUNT_PER_LINE,
    ensures
        (forall|i: int| 0 <= i < CHARACTER_COUNT_PER_LINE ==> !is_space(#[trigger] l[i]))
            ==> wrap_line(l) is None,
        forall|k: int|
            0 <= k < CHARACTER_COUNT_PER_LINE && is_space(#[trigger] l[k]) && (forall|j: int|
                k < j < CHARACTER_COUNT_PER_LINE ==> !is_space(l[j])) && l.len() - (k + 1)
                <= CHARACTER_COUNT_PER_LINE ==> wrap_line(l) == Some(
                seq![l.subrange(0, k + 1), l.subrange(k + 1, l.len() as int)],
            ),
{
    let w = CHARACTER_COUNT_PER_LINE as int;
    lemma_last_space_before(l, w);
    assert forall|k: int|
        0 <= k < w && is_space(#[trigger] l[k]) && (forall|j: int|
            k < j < w ==> !is_space(l[j])) && l.len() - (k + 1) <= w implies wrap_line(l)
        == Some(seq![l.subrange(0, k + 1), l.subrange(k + 1, l.len() as int)]) by {
        let found = last_space_before(l, w);
        assert(found is Some);
        let k2 = found->Some_0;
        if k2 < k {
            assert(!is_space(l[k]));
        }
        if k2 > k {
            assert(!is_space(l[k2]));
        }
        let rest = l.subrange(k + 1, l.len() as int);
        assert(wrap_line(rest) == Some(seq![rest]));
        assert(seq![l.subrange(0, k + 1)] + seq![rest] == seq![l.subrange(0, k + 1), rest]);
    }
}

/// The rows of one wrapped logical line: each but the last ends at an inserted break.
pub open spec fn line_rows(subs: Seq<Seq<char>>) -> Seq<(Seq<char>, bool)> {
    Seq::new(subs.len(), |k: int| (subs[k], k + 1 < subs.len()))
}

/// The display rows of the logical lines `ls`, each with whether it ends at an inserted break.
pub open spec fn wrap_rows(ls: Seq<Seq<char>>) -> Option<Seq<(Seq<char>, bool)>>
    decreases ls.len(),
{
    if ls.len() == 0 {
        Some(Seq::empty())
    } else {
        match (wrap_rows(ls.drop_last()), wrap_line(ls.last())) {
            (Some(a), Some(b)) => Some(a + line_rows(b)),
            _ => None,
        }
    }
}

/// The display rows of the text `t`, one or more for each of its newline-delimited pieces;
/// none where one of them cannot be wrapped.
pub open spec fn wrapped_rows(t: Seq<char>) -> Option<Seq<(Seq<char>, bool)>> {
    wrap_rows(pieces(t))
}

proof fn lemma_wrap_rows_none(ls: Seq<Seq<char>>, k: int)
    requires
        0 <= k <= ls.len(),
        wrap_rows(ls.subrange(0, k)) is None,
    ensures
        wrap_rows(ls) is None,
    decreases ls.len(),
{
    if k == ls.len() {
        assert(ls.subrange(0, k) == ls);
    } else {
        assert(ls.drop_last().subrange(0, k) == ls.subrange(0, k));
        lemma_wrap_rows_none(ls.drop_last(), k);
    }
}

/// Wrapping a text fails exactly where one of its newline-delimited pieces cannot be
/// wrapped.
pub proof fn lemma_wrap_fails_on_a_line(ls: Seq<Seq<char>>)
    ensures
        wrap_rows(ls) is None <==> exists|i: int| 0 <= i < ls.len() && #[trigger] wrap_line(ls[i])
            is None,
    decreases ls.len(),
{
    if ls.len() > 0 {
        let front = ls.drop_last();
        lemma_wrap_fails_on_a_line(front);
        if wrap_rows(front) is None {
            let i = choose|i: int| 0 <= i < front.len() && #[trigger] wrap_line(front[i]) is None;
            assert(ls[i] == front[i]);
        } else if wrap_line(ls.last()) is None {
            assert(wrap_line(ls[ls.len() - 1]) is None);
        } else {
            assert forall|i: int| 0 <= i < ls.len() implies !(#[trigger] wrap_line(ls[i]) is None) by {
                if i < ls.len() - 1 {
                    assert(ls[i] == front[i]);
                }
            }
        }
    }
}

/// The rows written out, one newline between each two.
pub open spec fn render(rows: Seq<(Seq<char>, bool)>) -> Seq<char>
    decreases rows.len(),
{
    if rows.len() == 0 {
        Seq::empty()
    } else if rows.len() == 1 {
        rows[0].0
    } else {
        render(rows.drop_last()) + seq!['\n'] + rows.last().0
    }
}

/// The offsets in `render(rows)` just after each inserted break.
pub open spec fn points(rows: Seq<(Seq<char>, bool)>) -> Seq<int>
    decreases rows.len(),
{
    if rows.len() <= 1 {
        Seq::empty()
    } else if rows[rows.len() - 2].1 {
        points(rows.drop_last()).push(render(rows.drop_last()).len() + 1int)
    } else {
        points(rows.drop_last())
    }
}

/// How many of `ps` are at most `o`.
pub open spec fn count_at_most(ps: Seq<int>, o: int) -> int
    decreases ps.len(),
{
    if ps.len() == 0 {
        0
    } else {
        count_at_most(ps.drop_last(), o) + if ps.last() <= o {
            1int
        } else {
            0int
        }
    }
}

/// The offset in the unwrapped text of offset `o` of the wrapped text with break points `ps`.
pub open spec fn unwrapped_offset(ps: Seq<int>, o: int) -> int {
    if count_at_most(ps, o) <= o {
        o - count_at_most(ps, o)
    } else {
        0
    }
}

/// The range `[start, end)` held within `[0, len]`, its end no less than its start.
pub open spec fn clamped_range(len: int, start: int, end: int) -> (int, int) {
    let s = if start < len {
        start
    } else {
        len
    };
    let e = if end < s {
        s
    } else if end < len {
        end
    } else {
        len
    };
    (s, e)
}

/// The integers of a sequence of indices.
pub open spec fn ints(s: Seq<usize>) -> Seq<int> {
    s.map_values(|x: usize| x as int)
}

/// Why a text could not be wrapped.
#[derive(Debug, Clone, Copy, PartialEq, Eq)]
pub enum WrapError {
    /// A line longer than the width has no whitespace among its first
    /// `CHARACTER_COUNT_PER_LINE` characters, so it cannot be broken at a word boundary.
    UnwrappableLine,
}

/// One display row: its characters, and whether it ends at an inserted break.
struct Row {
    text: Vec<char>,
    soft: bool,
}

impl View for Row {
    type V = (Seq<char>, bool);

    closed spec fn view(&self) -> (Seq<char>, bool) {
        (self.text@, self.soft)
    }
}

spec fn row_views(v: Seq<Row>) -> Seq<(Seq<char>, bool)> {
    v.map_values(|r: Row| r@)
}

/// Wraps one logical line.
fn wrap_one(l: &Vec<char>) -> (r: Option<Vec<Vec<char>>>)
    ensures
        match wrap_line(l@) {
            None => r is None,
            Some(s) => r is Some && texts(r->0@) == s,
        },
{
    let mut rest = copy_range(l, 0, l.len());
    assert(l@.subrange(0, l@.len() as int) == l@);
    let mut done: Vec<Vec<char>> = Vec::new();
    assert(texts(done@) == Seq::<Seq<char>>::empty());
    while rest.len() > CHARACTER_COUNT_PER_LINE
        invariant
            wrap_line(l@) == match wrap_line(rest@) {
                None => None,
                Some(s) => Some(texts(done@) + s),
            },
        decreases rest.len(),
    {
        let mut j: usize = CHARACTER_COUNT_PER_LINE;
        while j > 0 && !is_whitespace(rest[j - 1])
            invariant
                j <= CHARACTER_COUNT_PER_LINE < rest@.len(),
                last_space_before(rest@, j as int) == last_space_before(
                    rest@,
                    CHARACTER_COUNT_PER_LINE as int,
                ),
            decreases j,
        {
            j = j - 1;
        }
        if j == 0 {
            return None;
        }
        let head = copy_range(&rest, 0, j);
        let tail = copy_range(&rest, j, rest.len());
        let ghost old_done = done@;
        let ghost old_rest = rest@;
        done.push(head);
        rest = tail;
        proof {
            assert(texts(done@) == texts(old_done).push(head@));
            assert(wrap_line(old_rest) == match wrap_line(rest@) {
                None => None,
                Some(s) => Some(seq![head@] + s),
            });
            match wrap_line(rest@) {
                None => {},
                Some(s) => {
                    assert(texts(old_done) + (seq![head@] + s) == texts(done@) + s);
                },
            }
        }
    }
    let ghost old_done = done@;
    let ghost last = rest@;
    done.push(rest);
    assert(texts(done@) == texts(old_done) + seq![last]);
    Some(done)
}

/// The display rows of the whole text `t`.
fn wrap_text(t: &Vec<char>) -> (r: Option<Vec<Row>>)
    ensures
        match wrapped_rows(t@) {
            None => r is None,
            Some(s) => r is Some && row_views(r->0@) == s,
        },
{
    let ps = split_pieces(t);
    let n: usize = ps.len();
    let ghost ls = pieces(t@);
    assert(ls.len() == n);
    assert(forall|k: int| 0 <= k < n ==> ls[k] == ps@[k]@);
    let mut rows: Vec<Row> = Vec::new();
    let mut k: usize = 0;
    assert(ls.subrange(0, 0) == Seq::<Seq<char>>::empty());
    assert(row_views(rows@) == Seq::<(Seq<char>, bool)>::empty());
    while k < n
        invariant
            k <= n == ls.len() == ps@.len(),
            ls == pieces(t@),
            forall|q: int| 0 <= q < n ==> ls[q] == ps@[q]@,
            wrap_rows(ls.subrange(0, k as int)) == Some(row_views(rows@)),
        decreases n - k,
    {
        let sub = wrap_one(&ps[k]);
        assert(ls.subrange(0, k + 1).drop_last() == ls.subrange(0, k as int));
        assert(ls.subrange(0, k + 1).last() == ps@[k as int]@);
        match sub {
            None => {
                proof {
                    lemma_wrap_rows_none(ls, k + 1);
                }
                return None;
            },
            Some(subs) => {
                let ghost before = row_views(rows@);
                let ghost lr = line_rows(texts(subs@));
                let mut m: usize = 0;
                assert(lr.subrange(0, 0) == Seq::<(Seq<char>, bool)>::empty());
                assert(before + lr.subrange(0, 0) == before);
                while m < subs.len()
                    invariant
                        m <= subs@.len(),
                        lr == line_rows(texts(subs@)),
                        row_views(rows@) == before + lr.subrange(0, m as int),
                    decreases subs.len() - m,
                {
                    let text = copy_range(&subs[m], 0, subs[m].len());
                    assert(subs@[m as int]@.subrange(0, subs@[m as int]@.len() as int)
                        == subs@[m as int]@);
                    let row = Row { text, soft: m + 1 < subs.len() };
                    let ghost prev = rows@;
                    rows.push(row);
                    assert(row_views(rows@) == row_views(prev).push(row@));
                    assert(lr.subrange(0, m + 1) == lr.subrange(0, m as int).push(lr[m as int]));
                    m = m + 1;
                }
                assert(lr.subrange(0, m as int) == lr);
            },
        }
        k = k + 1;
    }
    assert(ls.subrange(0, n as int) == ls);
    Some(rows)
}

/// The rows written out, and the offsets just after their inserted breaks.
fn render_rows(rows: &Vec<Row>) -> (r: (Vec<char>, Vec<usize>))
    ensures
        r.0@ == render(row_views(rows@)),
        ints(r.1@) == points(row_views(rows@)),
{
    let ghost rv = row_views(rows@);
    let mut out: Vec<char> = Vec::new();
    let mut pts: Vec<usize> = Vec::new();
    let mut i: usize = 0;
    assert(rv.subrange(0, 0) == Seq::<(Seq<char>, bool)>::empty());
    assert(ints(pts@) == Seq::<int>::empty());
    while i < rows.len()
        invariant
            i <= rows@.len(),
            rv == row_views(rows@),
            out@ == render(rv.subrange(0, i as int)),
            ints(pts@) == points(rv.subrange(0, i as int)),
        decreases rows.len() - i,
    {
        let ghost pre = rv.subrange(0, i + 1);
        assert(pre.drop_last() == rv.subrange(0, i as int));
        if i > 0 {
            out.push('\n');
            assert(pre[pre.len() - 2] == rows@[i - 1]@);
            if rows[i - 1].soft {
                let ghost old_pts = pts@;
                pts.push(out.len());
                assert(ints(pts@) == ints(old_pts).push(out@.len() as int));
            }
        }
        assert(ints(pts@) == points(pre));
        let row = &rows[i];
        let ghost base = out@;
        let mut j: usize = 0;
        assert(row.text@.subrange(0, 0) == Seq::<char>::empty());
        assert(base + row.text@.subrange(0, 0) == base);
        while j < row.text.len()
            invariant
                j <= row.text@.len(),
                out@ == base + row.text@.subrange(0, j as int),
            decreases row.text.len() - j,
        {
            out.push(row.text[j]);
            assert(row.text@.subrange(0, j + 1) == row.text@.subrange(0, j as int).push(
                row.text@[j as int],
            ));
            j = j + 1;
        }
        assert(row.text@.subrange(0, j as int) == row.text@);
        assert(pre.last() == row@);
        assert(out@ == render(pre));
        i = i + 1;
    }
    assert(rv.subrange(0, i as int) == rv);
    (out, pts)
}

/// One logical line, or a whole text, as shown in soft-wrapped display rows.
#[derive(Debug, Clone)]
pub struct WrappedText {
    text: RawText,
}

impl View for WrappedText {
    type V = Seq<char>;

    closed spec fn view(&self) -> Seq<char> {
        self.text@
    }
}

impl WrappedText {
    pub fn new(text: String) -> (r: WrappedText)
        ensures
            r@ == text@,
    {
        WrappedText { text: RawText::new(text) }
    }

    pub fn empty() -> (r: WrappedText)
        ensures
            r@ == Seq::<char>::empty(),
    {
        WrappedText { text: RawText::empty() }
    }

    /// The unwrapped text.
    pub fn original(&self) -> (r: RawText)
        ensures
            r@ == self@,
    {
        RawText { text: copy_range(&self.text.text, 0, self.text.text.len()) }
    }

    /// The wrapped text, its rows joined by newlines, and the offsets in it just after
    /// each inserted break.
    pub fn to_string_with_wrap_points(&self) -> (r: Result<(String, Vec<usize>), WrapError>)
        ensures
            match wrapped_rows(self@) {
                None => r == Err::<(String, Vec<usize>), WrapError>(WrapError::UnwrappableLine),
                Some(rows) => r is Ok && r->Ok_0.0@ == render(rows) && ints(r->Ok_0.1@)
                    == points(rows),
            },
    {
        match wrap_text(&self.text.text) {
            None => Err(WrapError::UnwrappableLine),
            Some(rows) => {
                let (out, pts) = render_rows(&rows);
                Ok((string_of(out.as_slice()), pts))
            },
        }
    }

    /// The offsets in the wrapped text just after each inserted break.
    pub fn wrap_points(&self) -> (r: Result<Vec<usize>, WrapError>)
        ensures
            match wrapped_rows(self@) {
                None => r == Err::<Vec<usize>, WrapError>(WrapError::UnwrappableLine),
                Some(rows) => r is Ok && ints(r->Ok_0@) == points(rows),
            },
    {
        match self.to_string_with_wrap_points() {
            Err(e) => Err(e),
            Ok((_, pts)) => Ok(pts),
        }
    }

    /// The display rows, without their newlines.
    pub fn lines(&self) -> (r: Result<Vec<String>, WrapError>)
        ensures
            match wrapped_rows(self@) {
                None => r is Err,
                Some(rows) => r is Ok && r->Ok_0@.len() == rows.len() && forall|i: int|
                    0 <= i < rows.len() ==> #[trigger] r->Ok_0@[i]@ == rows[i].0,
            },
    {
        match wrap_text(&self.text.text) {
            None => Err(WrapError::UnwrappableLine),
            Some(rows) => {
                let ghost rv = row_views(rows@);
                let mut out: Vec<String> = Vec::new();
                let mut i: usize = 0;
                while i < rows.len()
                    invariant
                        i <= rows@.len(),
                        rv == row_views(rows@),
                        out@.len() == i,
                        forall|q: int| 0 <= q < i ==> #[trigger] out@[q]@ == rv[q].0,
                    decreases rows.len() - i,
                {
                    out.push(string_of(rows[i].text.as_slice()));
                    i = i + 1;
                }
                Ok(out)
            },
        }
    }

    /// How many display rows there are.
    pub fn line_length(&self) -> (r: Result<usize, WrapError>)
        ensures
            match wrapped_rows(self@) {
                None => r is Err,
                Some(rows) => r == Ok::<usize, WrapError>(rows.len() as usize),
            },
    {
        match wrap_text(&self.text.text) {
            None => Err(WrapError::UnwrappableLine),
            Some(rows) => Ok(rows.len()),
        }
    }

    /// Whether display row `i` ends at an inserted break rather than an authored one.
    pub fn is_soft_wrapped_line(&self, i: usize) -> (r: Result<bool, WrapError>)
        ensures
            match wrapped_rows(self@) {
                None => r is Err,
                Some(rows) => r == Ok::<bool, WrapError>(i < rows.len() && rows[i as int].1),
            },
    {
        match wrap_text(&self.text.text) {
            None => Err(WrapError::UnwrappableLine),
            Some(rows) => Ok(i < rows.len() && rows[i].soft),
        }
    }

    /// The length of the wrapped text without its inserted breaks: the length of the text.
    pub fn length(&self) -> (r: Result<usize, WrapError>)
        ensures
            match wrapped_rows(self@) {
                None => r is Err,
                Some(rows) => r == Ok::<usize, WrapError>(self@.len() as usize),
            },
    {
        match wrap_text(&self.text.text) {
            None => Err(WrapError::UnwrappableLine),
            Some(_) => Ok(self.text.len()),
        }
    }

    /// The offset in the unwrapped text of offset `offset` of the wrapped text.
    fn resolve_offset(&self, offset: usize) -> (r: Result<usize, WrapError>)
        ensures
            match wrapped_rows(self@) {
                None => r is Err,
                Some(rows) => r is Ok && r->Ok_0 == unwrapped_offset(points(rows), offset as int),
            },
    {
        match self.wrap_points() {
            Err(e) => Err(e),
            Ok(pts) => {
                let ghost ps = ints(pts@);
                let mut count: usize = 0;
                let mut i: usize = 0;
                assert(ps.subrange(0, 0) == Seq::<int>::empty());
                while i < pts.len()
                    invariant
                        i <= pts@.len(),
                        ps == ints(pts@),
                        count <= i,
                        count == count_at_most(ps.subrange(0, i as int), offset as int),
                    decreases pts.len() - i,
                {
                    assert(ps.subrange(0, i + 1).drop_last() == ps.subrange(0, i as int));
                    if pts[i] <= offset {
                        count = count + 1;
                    }
                    i = i + 1;
                }
                assert(ps.subrange(0, i as int) == ps);
                if count <= offset {
                    Ok(offset - count)
                } else {
                    Ok(0)
                }
            },
        }
    }

    /// The unwrapped range that the wrapped range `range` covers, held within the text.
    fn resolve_range(&self, range: Range<usize>) -> (r: Result<(usize, usize), WrapError>)
        ensures
            match wrapped_rows(self@) {
                None => r is Err,
                Some(rows) => r is Ok && (r->Ok_0.0 as int, r->Ok_0.1 as int) == clamped_range(
                    self@.len() as int,
                    unwrapped_offset(points(rows), range.start as int),
                    unwrapped_offset(points(rows), range.end as int),
                ),
            },
    {
        let start = match self.resolve_offset(range.start) {
            Err(e) => {
                return Err(e);
            },
            Ok(o) => o,
        };
        let end = match self.resolve_offset(range.end) {
            Err(e) => {
                return Err(e);
            },
            Ok(o) => o,
        };
        let len = self.text.len();
        let s = if start < len {
            start
        } else {
            len
        };
        let e = if end < s {
            s
        } else if end < len {
            end
        } else {
            len
        };
        Ok((s, e))
    }

    /// Replaces the characters that the wrapped range `range` covers.
    pub fn replace(&mut self, range: Range<usize>, replacement: String) -> (r: Result<(), WrapError>)
        requires
            old(self)@.len() + replacement@.len() <= usize::MAX,
        ensures
            match wrapped_rows(old(self)@) {
                None => r is Err && final(self)@ == old(self)@,
                Some(rows) => r is Ok && {
                    let (s, e) = clamped_range(
                        old(self)@.len() as int,
                        unwrapped_offset(points(rows), range.start as int),
                        unwrapped_offset(points(rows), range.end as int),
                    );
                    final(self)@ == spliced(old(self)@, s, e, replacement@)
                },
            },
    {
        match self.resolve_range(range) {
            Err(e) => Err(e),
            Ok((s, e)) => {
                self.text.replace(s..e, replacement);
                Ok(())
            },
        }
    }

    /// The characters that the wrapped range `range` covers.
    pub fn read_range(&self, range: Range<usize>) -> (r: Result<String, WrapError>)
        ensures
            match wrapped_rows(self@) {
                None => r is Err,
                Some(rows) => r is Ok && {
                    let (s, e) = clamped_range(
                        self@.len() as int,
                        unwrapped_offset(points(rows), range.start as int),
                        unwrapped_offset(points(rows), range.end as int),
                    );
                    r->Ok_0@ == self@.subrange(s, e)
                },
            },
    {
        match self.resolve_range(range) {
            Err(e) => Err(e),
            Ok((s, e)) => Ok(self.text.read_range(s..e)),
        }
    }

    /// The start of the nearest word that starts before `offset` in the unwrapped text; none
    /// where no word does.
    pub fn previous_word_boundary(&self, offset: usize) -> (r: Option<usize>)
        ensures
            opt_int(r) == previous_boundary(self@, offset as int),
    {
        previous_word_start(&self.text.text, offset)
    }

    /// The start of the next word after `offset` in the unwrapped text, or its end where the
    /// last word runs on to it; none where only whitespace follows `offset`.
    pub fn next_word_boundary(&self, offset: usize) -> (r: Option<usize>)
        ensures
            opt_int(r) == next_boundary(self@, offset as int),
    {
        next_word_start(&self.text.text, offset)
    }

    /// The wrapped text, its rows joined by newlines.
    pub fn to_string(&self) -> (r: Result<String, WrapError>)
        ensures
            match wrapped_rows(self@) {
                None => r == Err::<String, WrapError>(WrapError::UnwrappableLine),
                Some(rows) => r is Ok && r->Ok_0@ == render(rows),
            },
    {
        match self.to_string_with_wrap_points() {
            Err(e) => Err(e),
            Ok((out, _)) => Ok(out),
        }
    }
}

} // verus!
