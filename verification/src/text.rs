//! Text primitives: trimming, splitting, searching and number conversion over
//! sequences of characters.
//!
//! Every function here is stated over `Seq<char>`, the view of a `str`, so the
//! parsers and formatters of the other modules can be specified in the same
//! vocabulary that they execute.

use vstd::prelude::*;
use vstd::string::*;

verus! {

/// `String::push` appends one character at the end of the text.
pub assume_specification[ String::push ](s: &mut String, c: char)
    ensures
        final(s)@ == old(s)@.push(c),
;

// ---------------------------------------------------------------------------
// Conversions between text and characters
// ---------------------------------------------------------------------------

/// The characters of `s`, in order.
pub fn chars_of(s: &str) -> (r: Vec<char>)
    ensures
        r@ == s@,
{
    let mut r: Vec<char> = Vec::new();
    for c in it: s.chars()
        invariant
            r@ == s@.take(it.index() as int),
            it.seq() == s@,
    {
        r.push(c);
    }
    r
}

/// Whether two texts hold the same characters.
pub fn same(a: &str, b: &str) -> (r: bool)
    ensures
        r == (a@ == b@),
{
    let x = a.to_owned();
    let y = b.to_owned();
    x == y
}

/// Whether `list` holds the text `item`.
pub fn has_text(list: &[String], item: &str) -> (r: bool)
    ensures
        r == list.deep_view().contains(item@),
{
    let mut i: usize = 0;
    while i < list.len()
        invariant
            i <= list.len(),
            forall|k: int| 0 <= k < i ==> list.deep_view()[k] != item@,
        decreases list.len() - i,
    {
        if same(list[i].as_str(), item) {
            assert(list.deep_view()[i as int] == item@);
            return true;
        }
        i += 1;
    }
    false
}

/// The same texts, owned.
pub fn owned(list: &[&str]) -> (r: Vec<String>)
    ensures
        r.deep_view() == list.deep_view(),
{
    let mut r: Vec<String> = Vec::new();
    let mut i: usize = 0;
    while i < list.len()
        invariant
            i <= list.len(),
            r.deep_view() == list.deep_view().take(i as int),
        decreases list.len() - i,
    {
        let ghost before = r.deep_view();
        r.push(list[i].to_owned());
        assert(r.deep_view() =~= before.push(list.deep_view()[i as int]));
        i += 1;
    }
    assert(list.deep_view().take(i as int) =~= list.deep_view());
    r
}

/// A copy of a list of texts.
pub fn copied(list: &[String]) -> (r: Vec<String>)
    ensures
        r.deep_view() == list.deep_view(),
{
    let mut r: Vec<String> = Vec::new();
    let mut i: usize = 0;
    while i < list.len()
        invariant
            i <= list.len(),
            r.deep_view() == list.deep_view().take(i as int),
        decreases list.len() - i,
    {
        let ghost before = r.deep_view();
        r.push(list[i].clone());
        assert(r.deep_view() =~= before.push(list.deep_view()[i as int]));
        i += 1;
    }
    assert(list.deep_view().take(i as int) =~= list.deep_view());
    r
}

// ---------------------------------------------------------------------------
// White space
// ---------------------------------------------------------------------------

/// The code points with the Unicode property `White_Space`.
pub open spec fn is_space(c: char) -> bool {
    let u = c as u32;
    ||| 0x9 <= u <= 0xd
    ||| u == 0x20
    ||| u == 0x85
    ||| u == 0xa0
    ||| u == 0x1680
    ||| 0x2000 <= u <= 0x200a
    ||| u == 0x2028
    ||| u == 0x2029
    ||| u == 0x202f
    ||| u == 0x205f
    ||| u == 0x3000
}

/// Whether `c` is white space.
pub fn space(c: char) -> (r: bool)
    ensures
        r == is_space(c),
{
    let u = c as u32;
    (0x9 <= u && u <= 0xd) || u == 0x20 || u == 0x85 || u == 0xa0 || u == 0x1680 || (0x2000 <= u
        && u <= 0x200a) || u == 0x2028 || u == 0x2029 || u == 0x202f || u == 0x205f || u == 0x3000
}

/// `s` without its leading white space.
pub open spec fn trimmed_start(s: Seq<char>) -> Seq<char>
    decreases s.len(),
{
    if s.len() > 0 && is_space(s[0]) {
        trimmed_start(s.skip(1))
    } else {
        s
    }
}

/// `s` without its trailing white space.
pub open spec fn trimmed_end(s: Seq<char>) -> Seq<char>
    decreases s.len(),
{
    if s.len() > 0 && is_space(s.last()) {
        trimmed_end(s.drop_last())
    } else {
        s
    }
}

/// `s` without white space at either end.
pub open spec fn trimmed(s: Seq<char>) -> Seq<char> {
    trimmed_end(trimmed_start(s))
}

/// A text without white space at its ends is trimmed already.
pub proof fn lemma_trimmed_plain(s: Seq<char>)
    requires
        s.len() > 0 ==> !is_space(s[0]) && !is_space(s.last()),
    ensures
        trimmed(s) == s,
{
}

/// Whether a text is white space all over.
pub open spec fn is_blank(s: Seq<char>) -> bool {
    forall|i: int| 0 <= i < s.len() ==> is_space(#[trigger] s[i])
}

/// White space before a text is taken away.
proof fn lemma_trimmed_start_padded(before: Seq<char>, s: Seq<char>)
    requires
        is_blank(before),
        s.len() > 0 ==> !is_space(s[0]),
    ensures
        trimmed_start(before + s) == s,
    decreases before.len(),
{
    if before.len() > 0 {
        assert((before + s)[0] == before[0]);
        assert((before + s).skip(1) =~= before.skip(1) + s);
        assert forall|i: int| 0 <= i < before.skip(1).len() implies is_space(
            #[trigger] before.skip(1)[i],
        ) by {
            assert(before.skip(1)[i] == before[i + 1]);
        }
        lemma_trimmed_start_padded(before.skip(1), s);
    } else {
        assert(before + s =~= s);
    }
}

/// White space behind a text is taken away.
proof fn lemma_trimmed_end_padded(s: Seq<char>, after: Seq<char>)
    requires
        is_blank(after),
        s.len() > 0 ==> !is_space(s.last()),
    ensures
        trimmed_end(s + after) == s,
    decreases after.len(),
{
    if after.len() > 0 {
        assert((s + after).last() == after[after.len() - 1]);
        assert((s + after).drop_last() =~= s + after.drop_last());
        assert forall|i: int| 0 <= i < after.drop_last().len() implies is_space(
            #[trigger] after.drop_last()[i],
        ) by {
            assert(after.drop_last()[i] == after[i]);
        }
        lemma_trimmed_end_padded(s, after.drop_last());
    } else {
        assert(s + after =~= s);
    }
}

/// White space around a text is taken away, and nothing else.
pub proof fn law_trimming(before: Seq<char>, s: Seq<char>, after: Seq<char>)
    requires
        is_blank(before),
        is_blank(after),
        s.len() > 0 ==> !is_space(s[0]) && !is_space(s.last()),
    ensures
        trimmed(before + s + after) == s,
{
    if s.len() > 0 {
        assert((s + after)[0] == s[0]);
        lemma_trimmed_start_padded(before, s + after);
        assert(before + s + after =~= before + (s + after));
        lemma_trimmed_end_padded(s, after);
    } else {
        let all = before + s + after;
        assert forall|i: int| 0 <= i < all.len() implies is_space(#[trigger] all[i]) by {
            if i < before.len() {
                assert(all[i] == before[i]);
            } else {
                assert(all[i] == after[i - before.len()]);
            }
        }
        lemma_trimmed_start_padded(all, s);
        assert(all + s =~= all);
        assert(s =~= Seq::<char>::empty());
    }
}

/// The index of the first character at or after `from` that is no white space.
fn skip_space(cs: &[char], from: usize) -> (r: usize)
    requires
        from <= cs.len(),
    ensures
        from <= r <= cs.len(),
        cs@.skip(r as int) == trimmed_start(cs@.skip(from as int)),
{
    let mut i = from;
    while i < cs.len() && space(cs[i])
        invariant
            from <= i <= cs.len(),
            trimmed_start(cs@.skip(i as int)) == trimmed_start(cs@.skip(from as int)),
        decreases cs.len() - i,
    {
        assert(cs@.skip(i as int).skip(1) =~= cs@.skip(i as int + 1));
        i += 1;
    }
    i
}

/// `s` without white space at either end.
pub fn trim<'a>(s: &'a str) -> (r: &'a str)
    ensures
        r@ == trimmed(s@),
{
    let cs = chars_of(s);
    let a = skip_space(&cs, 0);
    assert(cs@.skip(0) =~= cs@);
    let mut b: usize = cs.len();
    assert(cs@.subrange(a as int, b as int) =~= cs@.skip(a as int));
    while b > a && space(cs[b - 1])
        invariant
            a <= b <= cs.len(),
            cs@ == s@,
            trimmed_end(cs@.subrange(a as int, b as int)) == trimmed(s@),
        decreases b,
    {
        assert(cs@.subrange(a as int, b as int).drop_last() =~= cs@.subrange(a as int, b - 1));
        b -= 1;
    }
    s.substring_char(a, b)
}

// ---------------------------------------------------------------------------
// Searching and splitting
// ---------------------------------------------------------------------------

/// The index of the first `c` in `s`, or the length of `s` without one.
pub open spec fn first_at(s: Seq<char>, c: char) -> int
    decreases s.len(),
{
    if s.len() == 0 || s[0] == c {
        0
    } else {
        1 + first_at(s.skip(1), c)
    }
}

/// `first_at` finds the first occurrence, and nothing stands before it.
pub proof fn lemma_first_at(s: Seq<char>, c: char)
    ensures
        0 <= first_at(s, c) <= s.len(),
        first_at(s, c) < s.len() ==> s[first_at(s, c)] == c,
        forall|k: int| 0 <= k < first_at(s, c) ==> s[k] != c,
        s.contains(c) <==> first_at(s, c) < s.len(),
    decreases s.len(),
{
    if s.len() > 0 && s[0] != c {
        lemma_first_at(s.skip(1), c);
        assert forall|k: int| 0 <= k < first_at(s, c) implies s[k] != c by {
            if k > 0 {
                assert(s.skip(1)[k - 1] == s[k]);
            }
        }
    }
    if first_at(s, c) < s.len() {
        assert(s[first_at(s, c)] == c);
        assert(s.contains(c));
    }
}

/// The place of the first `c` is fixed by what stands there and before it.
pub proof fn lemma_first_at_is(s: Seq<char>, c: char, i: int)
    requires
        0 <= i <= s.len(),
        i < s.len() ==> s[i] == c,
        forall|k: int| 0 <= k < i ==> s[k] != c,
    ensures
        first_at(s, c) == i,
{
    lemma_first_at(s, c);
}

/// The index of the first `c` at or after `from`, or the length without one.
pub fn find_char(cs: &[char], from: usize, c: char) -> (r: usize)
    requires
        from <= cs.len(),
    ensures
        from <= r <= cs.len(),
        r == from + first_at(cs@.skip(from as int), c),
        r < cs.len() ==> cs@[r as int] == c,
{
    let mut i = from;
    while i < cs.len() && cs[i] != c
        invariant
            from <= i <= cs.len(),
            from + first_at(cs@.skip(from as int), c) == i + first_at(cs@.skip(i as int), c),
        decreases cs.len() - i,
    {
        assert(cs@.skip(i as int).skip(1) =~= cs@.skip(i as int + 1));
        i += 1;
    }
    i
}

/// Whether `c` occurs in `s`.
pub fn contains_char(s: &str, c: char) -> (r: bool)
    ensures
        r == s@.contains(c),
{
    let cs = chars_of(s);
    let i = find_char(&cs, 0, c);
    proof {
        assert(cs@.skip(0) =~= cs@);
        lemma_first_at(cs@, c);
    }
    i < cs.len()
}

/// The parts of `s` between occurrences of `c`; one part where there is none.
pub open spec fn split_on(s: Seq<char>, c: char) -> Seq<Seq<char>>
    decreases s.len(),
    via split_on_shrinks
{
    let i = first_at(s, c);
    if i >= s.len() {
        seq![s]
    } else {
        seq![s.take(i)] + split_on(s.skip(i + 1), c)
    }
}

#[via_fn]
proof fn split_on_shrinks(s: Seq<char>, c: char) {
    lemma_first_at(s, c);
}

/// The parts of `s` between occurrences of `c`.
pub fn split<'a>(s: &'a str, c: char) -> (r: Vec<&'a str>)
    ensures
        r.deep_view() == split_on(s@, c),
{
    let cs = chars_of(s);
    let mut r: Vec<&'a str> = Vec::new();
    let mut start: usize = 0;
    assert(cs@.skip(0) =~= cs@);
    assert(r.deep_view() + split_on(s@, c) =~= split_on(s@, c));
    loop
        invariant
            cs@ == s@,
            start <= cs.len(),
            r.deep_view() + split_on(cs@.skip(start as int), c) == split_on(s@, c),
        decreases cs.len() - start,
    {
        let i = find_char(&cs, start, c);
        let part = s.substring_char(start, i);
        let ghost rest = cs@.skip(start as int);
        assert(part@ =~= rest.take(i - start));
        let ghost before = r.deep_view();
        r.push(part);
        assert(r.deep_view() =~= before.push(part@));
        if i >= cs.len() {
            assert(rest.take(i - start) =~= rest);
            assert(r.deep_view() =~= before + split_on(rest, c));
            return r;
        }
        proof {
            assert(rest.skip(i - start + 1) =~= cs@.skip(i as int + 1));
            assert(before + (seq![part@] + split_on(cs@.skip(i as int + 1), c)) =~= before.push(
                part@,
            ) + split_on(cs@.skip(i as int + 1), c));
        }
        start = i + 1;
    }
}

/// What stands before and after the first `c`.
pub open spec fn cut(s: Seq<char>, c: char) -> Option<(Seq<char>, Seq<char>)> {
    let i = first_at(s, c);
    if i < s.len() {
        Some((s.take(i), s.skip(i + 1)))
    } else {
        None
    }
}

/// The views of the two halves of a cut.
pub open spec fn pair_view(p: Option<(&str, &str)>) -> Option<(Seq<char>, Seq<char>)> {
    match p {
        Some((a, b)) => Some((a@, b@)),
        None => None,
    }
}

/// What stands before and after the first `c`.
pub fn split_once<'a>(s: &'a str, c: char) -> (r: Option<(&'a str, &'a str)>)
    ensures
        pair_view(r) == cut(s@, c),
{
    let cs = chars_of(s);
    let i = find_char(&cs, 0, c);
    assert(cs@.skip(0) =~= cs@);
    if i < cs.len() {
        let a = s.substring_char(0, i);
        let b = s.substring_char(i + 1, cs.len());
        assert(a@ =~= s@.take(i as int));
        assert(b@ =~= s@.skip(i as int + 1));
        Some((a, b))
    } else {
        None
    }
}

/// The index of the last `c` in `s`, or -1 without one.
pub open spec fn last_at(s: Seq<char>, c: char) -> int
    decreases s.len(),
{
    if s.len() == 0 {
        -1
    } else if s.last() == c {
        s.len() - 1
    } else {
        last_at(s.drop_last(), c)
    }
}

/// `last_at` finds the last occurrence, and nothing stands after it.
pub proof fn lemma_last_at(s: Seq<char>, c: char)
    ensures
        -1 <= last_at(s, c) < s.len(),
        last_at(s, c) >= 0 ==> s[last_at(s, c)] == c,
        forall|k: int| last_at(s, c) < k < s.len() ==> s[k] != c,
        s.contains(c) <==> last_at(s, c) >= 0,
    decreases s.len(),
{
    if s.len() > 0 && s.last() != c {
        lemma_last_at(s.drop_last(), c);
        assert forall|k: int| last_at(s, c) < k < s.len() implies s[k] != c by {
            if k < s.len() - 1 {
                assert(s.drop_last()[k] == s[k]);
            }
        }
    }
    if last_at(s, c) >= 0 {
        assert(s[last_at(s, c)] == c);
        assert(s.contains(c));
    }
}

/// What stands before and after the last `c`.
pub open spec fn cut_last(s: Seq<char>, c: char) -> Option<(Seq<char>, Seq<char>)> {
    let i = last_at(s, c);
    if i >= 0 {
        Some((s.take(i), s.skip(i + 1)))
    } else {
        None
    }
}

/// What stands before and after the last `c`.
pub fn rsplit_once<'a>(s: &'a str, c: char) -> (r: Option<(&'a str, &'a str)>)
    ensures
        pair_view(r) == cut_last(s@, c),
{
    let cs = chars_of(s);
    let mut n: usize = cs.len();
    assert(cs@.take(n as int) =~= cs@);
    while n > 0
        invariant
            cs@ == s@,
            n <= cs.len(),
            last_at(cs@.take(n as int), c) == last_at(s@, c),
        decreases n,
    {
        if cs[n - 1] == c {
            let a = s.substring_char(0, n - 1);
            let b = s.substring_char(n, cs.len());
            assert(a@ =~= s@.take(n - 1));
            assert(b@ =~= s@.skip(n as int));
            return Some((a, b));
        }
        assert(cs@.take(n as int).drop_last() =~= cs@.take(n - 1));
        n -= 1;
    }
    None
}

/// The lines of `s`: the text between line feeds, where a carriage return that
/// stands before a line feed belongs to the line's end, and where a final line
/// feed opens no further line.
pub open spec fn lines_of(s: Seq<char>) -> Seq<Seq<char>>
    decreases s.len(),
    via lines_of_shrinks
{
    let i = first_at(s, '\n');
    if s.len() == 0 {
        Seq::empty()
    } else if i >= s.len() {
        seq![s]
    } else {
        seq![without_cr(s.take(i))] + lines_of(s.skip(i + 1))
    }
}

#[via_fn]
proof fn lines_of_shrinks(s: Seq<char>) {
    lemma_first_at(s, '\n');
}

/// `s` without one carriage return at its end.
pub open spec fn without_cr(s: Seq<char>) -> Seq<char> {
    if s.len() > 0 && s.last() == '\r' {
        s.drop_last()
    } else {
        s
    }
}

/// The lines of `s`.
pub fn lines<'a>(s: &'a str) -> (r: Vec<&'a str>)
    ensures
        r.deep_view() == lines_of(s@),
{
    let cs = chars_of(s);
    let mut r: Vec<&'a str> = Vec::new();
    let mut start: usize = 0;
    assert(cs@.skip(0) =~= cs@);
    assert(r.deep_view() + lines_of(s@) =~= lines_of(s@));
    while start < cs.len()
        invariant
            cs@ == s@,
            start <= cs.len(),
            r.deep_view() + lines_of(cs@.skip(start as int)) == lines_of(s@),
        decreases cs.len() - start,
    {
        let i = find_char(&cs, start, '\n');
        let ghost rest = cs@.skip(start as int);
        let ghost before = r.deep_view();
        if i >= cs.len() {
            let part = s.substring_char(start, i);
            assert(part@ =~= rest);
            r.push(part);
            assert(r.deep_view() =~= before.push(part@));
            assert(r.deep_view() =~= before + lines_of(rest));
            return r;
        }
        let end = if i > start && cs[i - 1] == '\r' { i - 1 } else { i };
        let part = s.substring_char(start, end);
        proof {
            let whole = rest.take(i - start);
            assert(whole.len() > 0 ==> whole.last() == cs@[i - 1]);
            assert(part@ =~= without_cr(whole));
        }
        r.push(part);
        assert(r.deep_view() =~= before.push(part@));
        proof {
            assert(rest.skip(i - start + 1) =~= cs@.skip(i as int + 1));
            assert(before + (seq![part@] + lines_of(cs@.skip(i as int + 1))) =~= before.push(part@)
                + lines_of(cs@.skip(i as int + 1)));
        }
        start = i + 1;
    }
    assert(cs@.skip(start as int) =~= Seq::<char>::empty());
    assert(r.deep_view() + Seq::<Seq<char>>::empty() =~= r.deep_view());
    r
}

/// The length of the run without white space that `s` starts with.
pub open spec fn word_end(s: Seq<char>) -> int
    decreases s.len(),
{
    if s.len() == 0 || is_space(s[0]) {
        0
    } else {
        1 + word_end(s.skip(1))
    }
}

/// A word ends inside the text, at white space or at the text's end.
pub proof fn lemma_word_end(s: Seq<char>)
    ensures
        0 <= word_end(s) <= s.len(),
        word_end(s) < s.len() ==> is_space(s[word_end(s)]),
        forall|k: int| 0 <= k < word_end(s) ==> !is_space(s[k]),
    decreases s.len(),
{
    if s.len() > 0 && !is_space(s[0]) {
        lemma_word_end(s.skip(1));
        assert forall|k: int| 0 <= k < word_end(s) implies !is_space(s[k]) by {
            if k > 0 {
                assert(s.skip(1)[k - 1] == s[k]);
            }
        }
    }
}

/// Trimming the front never makes a text longer.
pub proof fn lemma_trimmed_start_len(s: Seq<char>)
    ensures
        trimmed_start(s).len() <= s.len(),
        trimmed_start(s).len() > 0 ==> !is_space(trimmed_start(s)[0]),
    decreases s.len(),
{
    if s.len() > 0 && is_space(s[0]) {
        lemma_trimmed_start_len(s.skip(1));
    }
}

/// Trimming the end keeps the front, and leaves no white space at the end.
proof fn lemma_trimmed_end_len(s: Seq<char>)
    ensures
        trimmed_end(s).len() <= s.len(),
        trimmed_end(s).len() > 0 ==> trimmed_end(s)[0] == s[0] && !is_space(trimmed_end(s).last()),
    decreases s.len(),
{
    if s.len() > 0 && is_space(s.last()) {
        lemma_trimmed_end_len(s.drop_last());
    }
}

/// A trimmed text has no white space at its ends.
pub proof fn lemma_trimmed_ends(s: Seq<char>)
    ensures
        trimmed(s).len() > 0 ==> !is_space(trimmed(s)[0]) && !is_space(trimmed(s).last()),
{
    lemma_trimmed_start_len(s);
    lemma_trimmed_end_len(trimmed_start(s));
}

/// The words of `s`: the longest runs without white space, in order.
pub open spec fn words_of(s: Seq<char>) -> Seq<Seq<char>>
    decreases s.len(),
    via words_of_shrinks
{
    let t = trimmed_start(s);
    if t.len() == 0 {
        Seq::empty()
    } else {
        seq![t.take(word_end(t))] + words_of(t.skip(word_end(t)))
    }
}

#[via_fn]
proof fn words_of_shrinks(s: Seq<char>) {
    lemma_trimmed_start_len(s);
    lemma_word_end(trimmed_start(s));
}

/// The words of `s`, separated by white space.
pub fn split_whitespace<'a>(s: &'a str) -> (r: Vec<&'a str>)
    ensures
        r.deep_view() == words_of(s@),
{
    let cs = chars_of(s);
    let mut r: Vec<&'a str> = Vec::new();
    let mut start: usize = 0;
    assert(cs@.skip(0) =~= cs@);
    assert(r.deep_view() + words_of(s@) =~= words_of(s@));
    loop
        invariant
            cs@ == s@,
            start <= cs.len(),
            r.deep_view() + words_of(cs@.skip(start as int)) == words_of(s@),
        decreases cs.len() - start,
    {
        let a = skip_space(&cs, start);
        let ghost t = cs@.skip(a as int);
        if a >= cs.len() {
            assert(words_of(cs@.skip(start as int)) =~= Seq::<Seq<char>>::empty());
            assert(r.deep_view() + Seq::<Seq<char>>::empty() =~= r.deep_view());
            return r;
        }
        let mut b = a;
        while b < cs.len() && !space(cs[b])
            invariant
                a <= b <= cs.len(),
                t == cs@.skip(a as int),
                word_end(t) == (b - a) + word_end(cs@.skip(b as int)),
            decreases cs.len() - b,
        {
            assert(cs@.skip(b as int).skip(1) =~= cs@.skip(b as int + 1));
            b += 1;
        }
        proof {
            lemma_trimmed_start_len(cs@.skip(start as int));
            assert(t[0] == cs@[a as int]);
            lemma_word_end(t);
        }
        let part = s.substring_char(a, b);
        let ghost before = r.deep_view();
        assert(part@ =~= t.take(b - a));
        r.push(part);
        assert(r.deep_view() =~= before.push(part@));
        proof {
            assert(t.skip(b - a) =~= cs@.skip(b as int));
            assert(before + (seq![part@] + words_of(cs@.skip(b as int))) =~= before.push(part@)
                + words_of(cs@.skip(b as int)));
            assert(b > a);
        }
        start = b;
    }
}

/// Whether `s` starts with `prefix`.
pub open spec fn has_prefix(s: Seq<char>, prefix: Seq<char>) -> bool {
    prefix.len() <= s.len() && s.take(prefix.len() as int) == prefix
}

/// Whether `s` ends with `suffix`.
pub open spec fn has_suffix(s: Seq<char>, suffix: Seq<char>) -> bool {
    suffix.len() <= s.len() && s.skip(s.len() - suffix.len()) == suffix
}

/// Whether `part` stands in `cs` at index `at`.
fn part_at(cs: &[char], part: &[char], at: usize) -> (r: bool)
    requires
        at <= cs.len(),
    ensures
        r == has_prefix(cs@.skip(at as int), part@),
{
    if cs.len() - at < part.len() {
        return false;
    }
    let mut i: usize = 0;
    while i < part.len()
        invariant
            i <= part.len(),
            at <= cs.len(),
            part.len() <= cs.len() - at,
            forall|k: int| 0 <= k < i ==> cs@[at + k] == part@[k],
        decreases part.len() - i,
    {
        if cs[at + i] != part[i] {
            assert(cs@.skip(at as int).take(part@.len() as int)[i as int] != part@[i as int]);
            return false;
        }
        i += 1;
    }
    assert(cs@.skip(at as int).take(part@.len() as int) =~= part@);
    true
}

/// Whether `s` starts with `prefix`.
pub fn starts_with(s: &str, prefix: &str) -> (r: bool)
    ensures
        r == has_prefix(s@, prefix@),
{
    let cs = chars_of(s);
    let ps = chars_of(prefix);
    assert(cs@.skip(0) =~= cs@);
    part_at(&cs, &ps, 0)
}

/// Whether `s` ends with `suffix`.
pub fn ends_with(s: &str, suffix: &str) -> (r: bool)
    ensures
        r == has_suffix(s@, suffix@),
{
    let cs = chars_of(s);
    let ps = chars_of(suffix);
    if cs.len() < ps.len() {
        return false;
    }
    let at = cs.len() - ps.len();
    assert(cs@.skip(at as int).take(ps@.len() as int) =~= cs@.skip(at as int));
    part_at(&cs, &ps, at)
}

/// The view of an optional text.
pub open spec fn opt_view(o: Option<&str>) -> Option<Seq<char>> {
    match o {
        Some(t) => Some(t@),
        None => None,
    }
}

/// The view of an optional owned text.
pub open spec fn opt_text(o: Option<String>) -> Option<Seq<char>> {
    match o {
        Some(t) => Some(t@),
        None => None,
    }
}

/// What follows `prefix` in a text that starts with it.
pub open spec fn after_prefix(s: Seq<char>, prefix: Seq<char>) -> Option<Seq<char>> {
    if has_prefix(s, prefix) {
        Some(s.skip(prefix.len() as int))
    } else {
        None
    }
}

/// What follows `prefix` in `s`, where `s` starts with it.
pub fn strip_prefix<'a>(s: &'a str, prefix: &str) -> (r: Option<&'a str>)
    ensures
        opt_view(r) == after_prefix(s@, prefix@),
{
    let cs = chars_of(s);
    let ps = chars_of(prefix);
    assert(cs@.skip(0) =~= cs@);
    if part_at(&cs, &ps, 0) {
        let rest = s.substring_char(ps.len(), cs.len());
        assert(rest@ =~= s@.skip(ps@.len() as int));
        Some(rest)
    } else {
        None
    }
}

/// Whether `part` occurs anywhere in `s`.
pub open spec fn has_part(s: Seq<char>, part: Seq<char>) -> bool {
    exists|i: int| 0 <= i <= s.len() && #[trigger] has_prefix(s.skip(i), part)
}

/// Whether `part` occurs anywhere in `s`.
pub fn contains(s: &str, part: &str) -> (r: bool)
    ensures
        r == has_part(s@, part@),
{
    let cs = chars_of(s);
    let ps = chars_of(part);
    let mut i: usize = 0;
    while i <= cs.len()
        invariant
            cs@ == s@,
            ps@ == part@,
            i <= cs.len() + 1,
            forall|k: int| 0 <= k < i ==> !#[trigger] has_prefix(s@.skip(k), part@),
        decreases cs.len() + 1 - i,
    {
        if part_at(&cs, &ps, i) {
            return true;
        }
        if i == cs.len() {
            return false;
        }
        i += 1;
    }
    false
}

/// The index where `part` first occurs in `s`, or the length of `s` without it.
pub open spec fn first_part(s: Seq<char>, part: Seq<char>) -> int
    decreases s.len(),
{
    if s.len() == 0 || has_prefix(s, part) {
        0
    } else {
        1 + first_part(s.skip(1), part)
    }
}

/// What stands before and after the first occurrence of `part`.
pub open spec fn cut_part(s: Seq<char>, part: Seq<char>) -> Option<(Seq<char>, Seq<char>)> {
    let i = first_part(s, part);
    if i < s.len() {
        Some((s.take(i), s.skip(i + part.len())))
    } else {
        None
    }
}

/// What stands before and after the first occurrence of a part that is not empty.
pub fn split_once_part<'a>(s: &'a str, part: &str) -> (r: Option<(&'a str, &'a str)>)
    ensures
        pair_view(r) == cut_part(s@, part@),
{
    let cs = chars_of(s);
    let ps = chars_of(part);
    let mut i: usize = 0;
    assert(cs@.skip(0) =~= cs@);
    while i < cs.len()
        invariant
            cs@ == s@,
            ps@ == part@,
            i <= cs.len(),
            first_part(s@, part@) == i + first_part(s@.skip(i as int), part@),
        decreases cs.len() - i,
    {
        if part_at(&cs, &ps, i) {
            let a = s.substring_char(0, i);
            let b = s.substring_char(i + ps.len(), cs.len());
            assert(a@ =~= s@.take(i as int));
            assert(b@ =~= s@.skip(i + ps.len()));
            return Some((a, b));
        }
        assert(s@.skip(i as int).skip(1) =~= s@.skip(i as int + 1));
        i += 1;
    }
    None
}

/// `first_part` stays inside, and a part that is found fits.
pub proof fn lemma_first_part(s: Seq<char>, part: Seq<char>)
    ensures
        0 <= first_part(s, part) <= s.len(),
        first_part(s, part) < s.len() ==> first_part(s, part) + part.len() <= s.len() && has_prefix(
            s.skip(first_part(s, part)),
            part,
        ),
    decreases s.len(),
{
    if s.len() > 0 && !has_prefix(s, part) {
        lemma_first_part(s.skip(1), part);
        let i = first_part(s.skip(1), part);
        assert(s.skip(1).skip(i) =~= s.skip(1 + i));
    } else {
        assert(s.skip(0) =~= s);
    }
}

/// A part is found where it occurs and does not occur before.
pub proof fn lemma_first_part_is(s: Seq<char>, part: Seq<char>, i: int)
    requires
        0 <= i < s.len(),
        has_prefix(s.skip(i), part),
        forall|j: int| 0 <= j < i ==> !has_prefix(#[trigger] s.skip(j), part),
    ensures
        first_part(s, part) == i,
    decreases s.len(),
{
    assert(s.skip(0) =~= s);
    if i > 0 {
        let rest = s.skip(1);
        assert(!has_prefix(s.skip(0), part));
        assert(rest.skip(i - 1) =~= s.skip(i));
        assert forall|j: int| 0 <= j < i - 1 implies !has_prefix(#[trigger] rest.skip(j), part) by {
            assert(rest.skip(j) =~= s.skip(j + 1));
        }
        lemma_first_part_is(rest, part, i - 1);
    }
}

/// A part does not occur before the place where it is found.
pub proof fn lemma_first_part_before(s: Seq<char>, part: Seq<char>, j: int)
    requires
        0 <= j < first_part(s, part),
    ensures
        !has_prefix(s.skip(j), part),
    decreases s.len(),
{
    lemma_first_part(s, part);
    assert(s.skip(0) =~= s);
    if j > 0 {
        assert(s.skip(1).skip(j - 1) =~= s.skip(j));
        lemma_first_part_before(s.skip(1), part, j - 1);
    }
}

/// What follows each occurrence of `part`, up to the next one.
pub open spec fn after_each(s: Seq<char>, part: Seq<char>) -> Seq<Seq<char>>
    decreases s.len(),
    via after_each_shrinks
{
    let i = first_part(s, part);
    if part.len() == 0 || i >= s.len() {
        Seq::empty()
    } else {
        let rest = s.skip(i + part.len());
        let j = first_part(rest, part);
        seq![rest.take(j)] + after_each(rest, part)
    }
}

#[via_fn]
proof fn after_each_shrinks(s: Seq<char>, part: Seq<char>) {
    lemma_first_part(s, part);
}

/// The index where `part` first occurs at or after `from`, or the length.
fn find_part(cs: &[char], from: usize, part: &[char]) -> (r: usize)
    requires
        from <= cs.len(),
    ensures
        from <= r <= cs.len(),
        r == from + first_part(cs@.skip(from as int), part@),
{
    let mut i = from;
    while i < cs.len() && !part_at(cs, part, i)
        invariant
            from <= i <= cs.len(),
            from + first_part(cs@.skip(from as int), part@) == i + first_part(
                cs@.skip(i as int),
                part@,
            ),
        decreases cs.len() - i,
    {
        assert(cs@.skip(i as int).skip(1) =~= cs@.skip(i as int + 1));
        i += 1;
    }
    i
}

/// What follows each occurrence of `part`, up to the next one.
pub fn pieces_after<'a>(s: &'a str, part: &str) -> (r: Vec<&'a str>)
    ensures
        r.deep_view() == after_each(s@, part@),
{
    let cs = chars_of(s);
    let ps = chars_of(part);
    let mut r: Vec<&'a str> = Vec::new();
    assert(r.deep_view() =~= Seq::<Seq<char>>::empty());
    if ps.len() == 0 {
        return r;
    }
    let mut start: usize = 0;
    assert(cs@.skip(0) =~= cs@);
    assert(r.deep_view() + after_each(s@, part@) =~= after_each(s@, part@));
    loop
        invariant
            cs@ == s@,
            ps@ == part@,
            ps.len() > 0,
            start <= cs.len(),
            r.deep_view() + after_each(cs@.skip(start as int), part@) == after_each(s@, part@),
        decreases cs.len() - start,
    {
        let ghost now = cs@.skip(start as int);
        let i = find_part(&cs, start, &ps);
        if i >= cs.len() {
            assert(r.deep_view() + Seq::<Seq<char>>::empty() =~= r.deep_view());
            return r;
        }
        proof {
            lemma_first_part(now, part@);
        }
        let next = i + ps.len();
        let j = find_part(&cs, next, &ps);
        let piece = s.substring_char(next, j);
        let ghost rest = cs@.skip(next as int);
        let ghost before = r.deep_view();
        r.push(piece);
        proof {
            assert(r.deep_view() =~= before.push(piece@));
            assert(now.skip(i - start + part@.len()) =~= rest);
            assert(piece@ =~= rest.take(j - next));
            assert(before + (seq![piece@] + after_each(rest, part@)) =~= before.push(piece@)
                + after_each(rest, part@));
        }
        start = next;
    }
}

// ---------------------------------------------------------------------------
// Joining and rewriting
// ---------------------------------------------------------------------------

/// The parts of `s` between the occurrences of `sep`, found from the front.
pub open spec fn split_parts(s: Seq<char>, sep: Seq<char>) -> Seq<Seq<char>>
    decreases s.len(),
    via split_parts_shrinks
{
    if sep.len() == 0 {
        seq![s]
    } else {
        match cut_part(s, sep) {
            Some((a, b)) => seq![a] + split_parts(b, sep),
            None => seq![s],
        }
    }
}

#[via_fn]
proof fn split_parts_shrinks(s: Seq<char>, sep: Seq<char>) {
    lemma_first_part(s, sep);
}

/// The parts of `s` between the occurrences of `sep`, which is not empty.
pub fn split_by<'a>(s: &'a str, sep: &str) -> (r: Vec<&'a str>)
    requires
        sep@.len() > 0,
    ensures
        r.deep_view() == split_parts(s@, sep@),
{
    let mut r: Vec<&'a str> = Vec::new();
    let mut rest = s;
    assert(r.deep_view() + split_parts(rest@, sep@) =~= split_parts(s@, sep@));
    loop
        invariant
            sep@.len() > 0,
            r.deep_view() + split_parts(rest@, sep@) == split_parts(s@, sep@),
        decreases rest@.len(),
    {
        let ghost before = r.deep_view();
        match split_once_part(rest, sep) {
            Some((a, b)) => {
                proof {
                    lemma_first_part(rest@, sep@);
                }
                r.push(a);
                assert(r.deep_view() =~= before.push(a@));
                assert(r.deep_view() + split_parts(b@, sep@) =~= before + split_parts(
                    rest@,
                    sep@,
                ));
                rest = b;
            },
            None => {
                r.push(rest);
                assert(r.deep_view() =~= before.push(rest@));
                assert(r.deep_view() =~= before + split_parts(rest@, sep@));
                return r;
            },
        }
    }
}

/// The parts put together again make the text.
pub proof fn lemma_split_parts_join(s: Seq<char>, sep: Seq<char>)
    requires
        sep.len() > 0,
    ensures
        split_parts(s, sep).len() > 0,
        joined(split_parts(s, sep), sep) == s,
    decreases s.len(),
{
    lemma_first_part(s, sep);
    match cut_part(s, sep) {
        Some((a, b)) => {
            lemma_split_parts_join(b, sep);
            let parts = split_parts(s, sep);
            let rest = split_parts(b, sep);
            assert(parts =~= seq![a] + rest);
            assert(parts.skip(1) =~= rest);
            lemma_joined_front(parts, sep);
            let i = first_part(s, sep);
            assert(s.skip(i).take(sep.len() as int) == sep);
            assert(s =~= a + sep + b) by {
                assert forall|k: int| 0 <= k < s.len() implies #[trigger] s[k] == (a + sep + b)[k] by {
                    if i <= k < i + sep.len() {
                        assert(s[k] == s.skip(i).take(sep.len() as int)[k - i]);
                    }
                }
            }
        },
        None => {
            assert(split_parts(s, sep) =~= seq![s]);
        },
    }
}

/// `parts` with `sep` between each two of them.
pub open spec fn joined(parts: Seq<Seq<char>>, sep: Seq<char>) -> Seq<char>
    decreases parts.len(),
{
    if parts.len() == 0 {
        Seq::empty()
    } else if parts.len() == 1 {
        parts[0]
    } else {
        joined(parts.drop_last(), sep) + sep + parts.last()
    }
}

/// `parts` with `sep` between each two of them.
pub fn join(parts: &[String], sep: &str) -> (r: String)
    ensures
        r@ == joined(parts.deep_view(), sep@),
{
    let mut r = String::new();
    let mut i: usize = 0;
    while i < parts.len()
        invariant
            i <= parts.len(),
            r@ == joined(parts.deep_view().take(i as int), sep@),
        decreases parts.len() - i,
    {
        proof {
            let next = parts.deep_view().take(i as int + 1);
            assert(next.drop_last() =~= parts.deep_view().take(i as int));
            assert(next.last() == parts[i as int]@);
        }
        if i > 0 {
            r.append(sep);
        }
        r.append(parts[i].as_str());
        assert(i == 0 ==> r@ =~= parts[i as int]@);
        i += 1;
    }
    assert(parts.deep_view().take(i as int) =~= parts.deep_view());
    r
}

/// The front of joined parts.
pub proof fn lemma_joined_front(parts: Seq<Seq<char>>, sep: Seq<char>)
    requires
        parts.len() > 1,
    ensures
        joined(parts, sep) == parts[0] + sep + joined(parts.skip(1), sep),
    decreases parts.len(),
{
    let less = parts.drop_last();
    let more = parts.skip(1);
    assert(more.last() == parts.last());
    if parts.len() == 2 {
        assert(less =~= seq![parts[0]]);
        assert(more =~= seq![parts[1]]);
        assert(joined(less, sep) == parts[0]);
        assert(joined(more, sep) == parts[1]);
        assert(joined(parts, sep) =~= parts[0] + sep + joined(more, sep));
    } else {
        lemma_joined_front(less, sep);
        assert(less.skip(1) =~= more.drop_last());
        assert(joined(parts, sep) =~= parts[0] + sep + joined(more, sep));
    }
}

/// Joined parts can be cut between any two of them.
pub proof fn lemma_joined_cut(parts: Seq<Seq<char>>, sep: Seq<char>, n: int)
    requires
        0 < n < parts.len(),
    ensures
        joined(parts, sep) == joined(parts.take(n), sep) + sep + joined(parts.skip(n), sep),
    decreases parts.len(),
{
    let less = parts.drop_last();
    let (a, b) = (parts.take(n), parts.skip(n));
    assert(b.last() == parts.last());
    if n == parts.len() - 1 {
        assert(less =~= a);
        assert(b =~= seq![parts.last()]);
        assert(joined(b, sep) == parts.last());
    } else {
        lemma_joined_cut(less, sep, n);
        assert(less.take(n) =~= a);
        assert(less.skip(n) =~= b.drop_last());
    }
    assert(joined(parts, sep) =~= joined(a, sep) + sep + joined(b, sep));
}

/// Whether `w` is a word: not empty, and without white space.
pub open spec fn is_word(w: Seq<char>) -> bool {
    w.len() > 0 && forall|i: int| 0 <= i < w.len() ==> !is_space(#[trigger] w[i])
}

/// A word ends where white space or the text's end follows it.
pub proof fn lemma_word_end_is(s: Seq<char>, n: int)
    requires
        0 <= n <= s.len(),
        forall|k: int| 0 <= k < n ==> !is_space(#[trigger] s[k]),
        n < s.len() ==> is_space(s[n]),
    ensures
        word_end(s) == n,
{
    lemma_word_end(s);
}

/// Words joined by single spaces read back.
pub proof fn lemma_words_of_joined(words: Seq<Seq<char>>)
    requires
        forall|i: int| 0 <= i < words.len() ==> is_word(#[trigger] words[i]),
    ensures
        words_of(joined(words, " "@)) == words,
        words.len() > 0 ==> joined(words, " "@).len() > 0 && !is_space(joined(words, " "@)[0])
            && !is_space(joined(words, " "@).last()),
        !joined(words, " "@).contains('\n'),
    decreases words.len(),
{
    reveal_strlit(" ");
    let s = joined(words, " "@);
    if words.len() == 0 {
        assert(words =~= Seq::<Seq<char>>::empty());
    } else if words.len() == 1 {
        let w = words[0];
        assert(s == w);
        lemma_word_end_is(w, w.len() as int);
        assert(w.take(w.len() as int) =~= w);
        assert(w.skip(w.len() as int) =~= Seq::<char>::empty());
        assert(trimmed_start(w) == w);
        assert(words_of(Seq::<char>::empty()) =~= Seq::<Seq<char>>::empty());
        assert(words_of(w) =~= seq![w]);
        assert(words =~= seq![w]);
    } else {
        let w = words[0];
        let more = words.skip(1);
        assert forall|i: int| 0 <= i < more.len() implies is_word(#[trigger] more[i]) by {
            assert(more[i] == words[i + 1]);
        }
        lemma_words_of_joined(more);
        lemma_joined_front(words, " "@);
        let rest = joined(more, " "@);
        assert(s == w + " "@ + rest);
        assert forall|k: int| 0 <= k < w.len() implies !is_space(#[trigger] s[k]) by {
            assert(s[k] == w[k]);
        }
        assert(s[w.len() as int] == ' ');
        lemma_word_end_is(s, w.len() as int);
        assert(s.take(w.len() as int) =~= w);
        let tail = s.skip(w.len() as int);
        assert(tail[0] == ' ');
        assert(tail.skip(1) =~= rest);
        assert(trimmed_start(tail) == trimmed_start(rest));
        assert(words_of(tail) == words_of(rest));
        assert(seq![w] + more =~= words);
        assert(s.last() == rest.last());
        if s.contains('\n') {
            let k = choose|k: int| 0 <= k < s.len() && s[k] == '\n';
            if k < w.len() {
                assert(w[k] == '\n');
            } else if k > w.len() {
                assert(rest[k - w.len() - 1] == '\n');
                assert(rest.contains('\n'));
            }
        }
    }
}

/// The lower case of an ASCII letter; any other character as it is.
pub open spec fn ascii_lower(c: char) -> char {
    if 'A' <= c <= 'Z' {
        ((c as u8) + 32) as u8 as char
    } else {
        c
    }
}

/// `s` with its ASCII letters in lower case.
pub open spec fn ascii_lowered(s: Seq<char>) -> Seq<char> {
    s.map_values(|c: char| ascii_lower(c))
}

/// `s` with its ASCII letters in lower case.
pub fn to_ascii_lowercase(s: &str) -> (r: String)
    ensures
        r@ == ascii_lowered(s@),
{
    let cs = chars_of(s);
    let mut r = String::new();
    let mut i: usize = 0;
    while i < cs.len()
        invariant
            i <= cs.len(),
            r@ == ascii_lowered(cs@.take(i as int)),
        decreases cs.len() - i,
    {
        let c = cs[i];
        let lower = if 'A' <= c && c <= 'Z' { (c as u8 + 32) as char } else { c };
        r.push(lower);
        assert(ascii_lowered(cs@.take(i as int + 1)) =~= ascii_lowered(cs@.take(i as int)).push(
            ascii_lower(c),
        ));
        i += 1;
    }
    assert(cs@.take(i as int) =~= cs@);
    r
}

/// What `str::to_lowercase` makes of a text.
pub uninterp spec fn lowercased(s: Seq<char>) -> Seq<char>;

/// Calls `str::to_lowercase`. Its result is named; of the name only this is
/// said, that on a text of ASCII characters it lowers the ASCII letters and
/// changes nothing else, and that it is empty only for an empty text, since every
/// character has one or more characters in lower case.
#[verifier::external_body]
pub(crate) fn to_lowercase(s: &str) -> (r: String)
    ensures
        r@ == lowercased(s@),
        vstd::utf8::is_ascii_chars(s@) ==> r@ == ascii_lowered(s@),
        r@.len() == 0 <==> s@.len() == 0,
{
    s.to_lowercase()
}

/// `s` without the occurrences of `c` that it ends with.
pub open spec fn trimmed_end_of(s: Seq<char>, c: char) -> Seq<char>
    decreases s.len(),
{
    if s.len() > 0 && s.last() == c {
        trimmed_end_of(s.drop_last(), c)
    } else {
        s
    }
}

/// `s` without the occurrences of `c` that it starts with.
pub open spec fn trimmed_start_of(s: Seq<char>, c: char) -> Seq<char>
    decreases s.len(),
{
    if s.len() > 0 && s[0] == c {
        trimmed_start_of(s.skip(1), c)
    } else {
        s
    }
}

/// `s` without the occurrences of `c` that it ends with.
pub fn trim_end_matches<'a>(s: &'a str, c: char) -> (r: &'a str)
    ensures
        r@ == trimmed_end_of(s@, c),
{
    let cs = chars_of(s);
    let mut b: usize = cs.len();
    assert(cs@.take(b as int) =~= cs@);
    while b > 0 && cs[b - 1] == c
        invariant
            b <= cs.len(),
            cs@ == s@,
            trimmed_end_of(cs@.take(b as int), c) == trimmed_end_of(s@, c),
        decreases b,
    {
        assert(cs@.take(b as int).drop_last() =~= cs@.take(b - 1));
        b -= 1;
    }
    assert(cs@.take(b as int) =~= cs@.subrange(0, b as int));
    s.substring_char(0, b)
}

/// `s` without the occurrences of `c` that it starts with.
pub fn trim_start_matches<'a>(s: &'a str, c: char) -> (r: &'a str)
    ensures
        r@ == trimmed_start_of(s@, c),
{
    let cs = chars_of(s);
    let mut a: usize = 0;
    assert(cs@.skip(0) =~= cs@);
    while a < cs.len() && cs[a] == c
        invariant
            a <= cs.len(),
            cs@ == s@,
            trimmed_start_of(cs@.skip(a as int), c) == trimmed_start_of(s@, c),
        decreases cs.len() - a,
    {
        assert(cs@.skip(a as int).skip(1) =~= cs@.skip(a as int + 1));
        a += 1;
    }
    assert(cs@.skip(a as int) =~= cs@.subrange(a as int, cs@.len() as int));
    s.substring_char(a, cs.len())
}

/// `s` without the repeats of `part` that it ends with.
pub open spec fn trimmed_end_part(s: Seq<char>, part: Seq<char>) -> Seq<char>
    decreases s.len(),
{
    if part.len() > 0 && has_suffix(s, part) {
        trimmed_end_part(s.take(s.len() - part.len()), part)
    } else {
        s
    }
}

/// `s` without the repeats of `part` that it ends with.
pub fn trim_end_part<'a>(s: &'a str, part: &str) -> (r: &'a str)
    ensures
        r@ == trimmed_end_part(s@, part@),
{
    let cs = chars_of(s);
    let ps = chars_of(part);
    let mut b: usize = cs.len();
    assert(cs@.take(b as int) =~= cs@);
    while ps.len() > 0 && b >= ps.len()
        invariant
            b <= cs.len(),
            cs@ == s@,
            ps@ == part@,
            trimmed_end_part(cs@.take(b as int), part@) == trimmed_end_part(s@, part@),
        ensures
            b <= cs.len(),
            trimmed_end_part(cs@.take(b as int), part@) == cs@.take(b as int),
        decreases b,
    {
        let ghost now = cs@.take(b as int);
        let at = b - ps.len();
        if !part_at(&cs, &ps, at) {
            assert(now.skip(now.len() - part@.len()) =~= cs@.skip(at as int).take(
                ps@.len() as int,
            ));
            break;
        }
        assert(now.skip(now.len() - part@.len()) =~= cs@.skip(at as int).take(ps@.len() as int));
        assert(now.take(now.len() - part@.len()) =~= cs@.take(at as int));
        b = at;
    }
    assert(cs@.take(b as int) =~= cs@.subrange(0, b as int));
    s.substring_char(0, b)
}

/// `s` with each `from` replaced by `to`.
pub open spec fn with_char_replaced(s: Seq<char>, from: char, to: Seq<char>) -> Seq<char>
    decreases s.len(),
{
    if s.len() == 0 {
        Seq::empty()
    } else {
        with_char_replaced(s.drop_last(), from, to) + if s.last() == from {
            to
        } else {
            seq![s.last()]
        }
    }
}

/// `s` with each `from` replaced by `to`.
pub fn replace_char(s: &str, from: char, to: &str) -> (r: String)
    ensures
        r@ == with_char_replaced(s@, from, to@),
{
    let cs = chars_of(s);
    let mut r = String::new();
    let mut i: usize = 0;
    while i < cs.len()
        invariant
            i <= cs.len(),
            r@ == with_char_replaced(cs@.take(i as int), from, to@),
        decreases cs.len() - i,
    {
        proof {
            assert(cs@.take(i as int + 1).drop_last() =~= cs@.take(i as int));
        }
        let ghost before = r@;
        if cs[i] == from {
            r.append(to);
        } else {
            r.push(cs[i]);
            assert(r@ =~= before + seq![cs@[i as int]]);
        }
        i += 1;
    }
    assert(cs@.take(i as int) =~= cs@);
    r
}

/// Parts that do not hold a character, put together with it between them, come
/// apart again at it.
pub proof fn law_split_joined(parts: Seq<Seq<char>>, c: char)
    requires
        parts.len() > 0,
        forall|i: int| 0 <= i < parts.len() ==> !(#[trigger] parts[i]).contains(c),
    ensures
        split_on(joined(parts, seq![c]), c) == parts,
    decreases parts.len(),
{
    if parts.len() == 1 {
        crate::ip::lemma_split_single(parts[0], c);
        assert(joined(parts, seq![c]) == parts[0]);
        assert(parts =~= seq![parts[0]]);
    } else {
        let rest = parts.skip(1);
        lemma_joined_front(parts, seq![c]);
        assert forall|i: int| 0 <= i < rest.len() implies !(#[trigger] rest[i]).contains(c) by {
            assert(rest[i] == parts[i + 1]);
        }
        law_split_joined(rest, c);
        crate::ip::lemma_split_front(parts[0], c, joined(rest, seq![c]));
        assert(seq![parts[0]] + rest =~= parts);
    }
}

// ---------------------------------------------------------------------------
// Numbers
// ---------------------------------------------------------------------------

/// The character of a digit below 16, in lower case.
pub open spec fn digit_char(d: int) -> char {
    if d < 10 {
        (d + 48) as u8 as char
    } else {
        (d + 87) as u8 as char
    }
}

/// `n` in decimal, without leading zeros.
pub open spec fn decimal(n: nat) -> Seq<char>
    decreases n,
{
    if n < 10 {
        seq![digit_char(n as int)]
    } else {
        decimal(n / 10).push(digit_char((n % 10) as int))
    }
}

/// `n` in lower-case hexadecimal, without leading zeros.
pub open spec fn hexadecimal(n: nat) -> Seq<char>
    decreases n,
{
    if n < 16 {
        seq![digit_char(n as int)]
    } else {
        hexadecimal(n / 16).push(digit_char((n % 16) as int))
    }
}

/// The character of a digit below 16.
fn digit(d: u8) -> (c: char)
    requires
        d < 16,
    ensures
        c == digit_char(d as int),
{
    if d < 10 {
        (d + 48) as char
    } else {
        (d + 87) as char
    }
}

/// Append `n` in decimal to `out`.
pub fn push_decimal(out: &mut String, n: u128)
    ensures
        final(out)@ == old(out)@ + decimal(n as nat),
    decreases n,
{
    let ghost before = out@;
    if n < 10 {
        out.push(digit(n as u8));
        assert(out@ =~= before + decimal(n as nat));
    } else {
        push_decimal(out, n / 10);
        out.push(digit((n % 10) as u8));
        assert(out@ =~= before + decimal(n as nat));
    }
}

/// Append `n` in hexadecimal to `out`.
pub fn push_hexadecimal(out: &mut String, n: u128)
    ensures
        final(out)@ == old(out)@ + hexadecimal(n as nat),
    decreases n,
{
    let ghost before = out@;
    if n < 16 {
        out.push(digit(n as u8));
        assert(out@ =~= before + hexadecimal(n as nat));
    } else {
        push_hexadecimal(out, n / 16);
        out.push(digit((n % 16) as u8));
        assert(out@ =~= before + hexadecimal(n as nat));
    }
}

/// `n` in decimal.
pub fn decimal_string(n: u128) -> (r: String)
    ensures
        r@ == decimal(n as nat),
{
    let mut r = String::new();
    push_decimal(&mut r, n);
    assert(r@ =~= decimal(n as nat));
    r
}

/// Why a text is not a number.
#[derive(Debug, Clone, Copy, PartialEq, Eq, Structural)]
pub enum NumberError {
    /// There are no digits at all.
    Empty,
    /// A character is no digit, or a sign stands alone.
    InvalidDigit,
    /// The number does not fit.
    PosOverflow,
}

impl NumberError {
    /// What is wrong, in words.
    pub open spec fn spec_text(self) -> Seq<char> {
        match self {
            NumberError::Empty => "cannot parse integer from empty string"@,
            NumberError::InvalidDigit => "invalid digit found in string"@,
            NumberError::PosOverflow => "number too large to fit in target type"@,
        }
    }

    /// What is wrong, in words.
    pub fn text(self) -> (r: &'static str)
        ensures
            r@ == self.spec_text(),
    {
        match self {
            NumberError::Empty => "cannot parse integer from empty string",
            NumberError::InvalidDigit => "invalid digit found in string",
            NumberError::PosOverflow => "number too large to fit in target type",
        }
    }
}

/// One more decimal digit `c` behind the number `acc`.
pub open spec fn with_digit(acc: nat, c: char, max: nat) -> Result<nat, NumberError> {
    if !('0' <= c <= '9') {
        Err(NumberError::InvalidDigit)
    } else if acc * 10 + (c as nat - 48) > max {
        Err(NumberError::PosOverflow)
    } else {
        Ok((acc * 10 + (c as nat - 48)) as nat)
    }
}

/// The number that the decimal digits of `s` denote, read from the left; the
/// first character that cannot be taken decides the error.
pub open spec fn digits_value(s: Seq<char>, max: nat) -> Result<nat, NumberError>
    decreases s.len(),
{
    if s.len() == 0 {
        Ok(0)
    } else {
        match digits_value(s.drop_last(), max) {
            Ok(acc) => with_digit(acc, s.last(), max),
            Err(e) => Err(e),
        }
    }
}

/// The unsigned number that `s` denotes, up to `max`: digits, after at most one
/// plus sign.
pub open spec fn number_value(s: Seq<char>, max: nat) -> Result<nat, NumberError> {
    if s.len() == 0 {
        Err(NumberError::Empty)
    } else if s.len() == 1 && s[0] == '+' {
        Err(NumberError::InvalidDigit)
    } else if s[0] == '+' {
        digits_value(s.skip(1), max)
    } else {
        digits_value(s, max)
    }
}

/// An executable result, in terms of natural numbers.
pub open spec fn number_view(r: Result<u64, NumberError>) -> Result<nat, NumberError> {
    match r {
        Ok(n) => Ok(n as nat),
        Err(e) => Err(e),
    }
}

/// Once a prefix is refused, so is the whole.
proof fn lemma_digits_error(s: Seq<char>, n: int, max: nat)
    requires
        0 <= n <= s.len(),
        digits_value(s.take(n), max) is Err,
    ensures
        digits_value(s, max) == digits_value(s.take(n), max),
    decreases s.len() - n,
{
    if n < s.len() {
        assert(s.take(n + 1).drop_last() =~= s.take(n));
        lemma_digits_error(s, n + 1, max);
    } else {
        assert(s.take(n) =~= s);
    }
}

/// Digits are refused where they start with something else.
pub proof fn lemma_digits_first(s: Seq<char>, max: nat)
    requires
        s.len() > 0,
        !('0' <= s[0] <= '9'),
    ensures
        digits_value(s, max) is Err,
{
    assert(s.take(1).drop_last() =~= Seq::<char>::empty());
    assert(digits_value(Seq::empty(), max) == Ok::<nat, NumberError>(0));
    lemma_digits_error(s, 1, max);
}

/// Parse an unsigned decimal number of at most `max`.
pub fn parse_number(s: &str, max: u64) -> (r: Result<u64, NumberError>)
    ensures
        number_view(r) == number_value(s@, max as nat),
        r is Ok ==> r->Ok_0 <= max,
{
    let cs = chars_of(s);
    if cs.len() == 0 {
        return Err(NumberError::Empty);
    }
    if cs.len() == 1 && cs[0] == '+' {
        return Err(NumberError::InvalidDigit);
    }
    let start: usize = if cs[0] == '+' { 1 } else { 0 };
    let ghost body = cs@.skip(start as int);
    assert(start == 0 ==> body =~= cs@);
    let mut i: usize = start;
    let mut acc: u64 = 0;
    while i < cs.len()
        invariant
            start <= i <= cs.len(),
            body == cs@.skip(start as int),
            number_value(s@, max as nat) == digits_value(body, max as nat),
            acc <= max,
            digits_value(body.take(i - start), max as nat) == Ok::<nat, NumberError>(acc as nat),
        decreases cs.len() - i,
    {
        let c = cs[i];
        proof {
            assert(body.take(i - start + 1).drop_last() =~= body.take(i - start));
            assert(body.take(i - start + 1).last() == c);
        }
        if !('0' <= c && c <= '9') {
            proof {
                lemma_digits_error(body, i - start + 1, max as nat);
            }
            return Err(NumberError::InvalidDigit);
        }
        let d: u128 = (c as u32 - 48) as u128;
        let next: u128 = acc as u128 * 10 + d;
        if next > max as u128 {
            proof {
                lemma_digits_error(body, i - start + 1, max as nat);
            }
            return Err(NumberError::PosOverflow);
        }
        acc = next as u64;
        i += 1;
    }
    assert(body.take(i - start) =~= body);
    Ok(acc)
}

/// Reading back what `decimal` wrote gives the number.
pub proof fn lemma_decimal_value(n: nat, max: nat)
    requires
        n <= max,
    ensures
        decimal(n).len() > 0,
        forall|k: int| 0 <= k < decimal(n).len() ==> '0' <= #[trigger] decimal(n)[k] <= '9',
        digits_value(decimal(n), max) == Ok::<nat, NumberError>(n),
        number_value(decimal(n), max) == Ok::<nat, NumberError>(n),
    decreases n,
{
    if n < 10 {
        assert(decimal(n).drop_last() =~= Seq::<char>::empty());
        assert(digits_value(Seq::empty(), max) == Ok::<nat, NumberError>(0));
        assert(decimal(n).last() == digit_char(n as int));
    } else {
        lemma_decimal_value(n / 10, max);
        assert(decimal(n).drop_last() =~= decimal(n / 10));
        assert(decimal(n).last() == digit_char((n % 10) as int));
        assert forall|k: int| 0 <= k < decimal(n).len() implies '0' <= #[trigger] decimal(n)[k]
            <= '9' by {
            if k < decimal(n / 10).len() {
                assert(decimal(n)[k] == decimal(n / 10)[k]);
            }
        }
    }
    assert('0' <= decimal(n)[0] <= '9');
}

/// A number with its sign.
pub open spec fn signed(n: int) -> Seq<char> {
    if n < 0 {
        "-"@ + decimal((-n) as nat)
    } else {
        decimal(n as nat)
    }
}

/// A number with its sign.
pub fn signed_string(n: i32) -> (r: String)
    ensures
        r@ == signed(n as int),
{
    let mut r = String::new();
    if n < 0 {
        r.append("-");
        let size: i64 = -(n as i64);
        push_decimal(&mut r, size as u128);
    } else {
        push_decimal(&mut r, n as u128);
    }
    assert(r@ =~= signed(n as int));
    r
}

// ---------------------------------------------------------------------------
// Bytes
// ---------------------------------------------------------------------------

/// Whether bytes are ASCII.
pub open spec fn ascii_bytes(bytes: Seq<u8>) -> bool {
    forall|i: int| 0 <= i < bytes.len() ==> #[trigger] bytes[i] < 128
}

/// What `String::from_utf8_lossy` makes of bytes.
pub uninterp spec fn lossy_text(bytes: Seq<u8>) -> Seq<char>;

/// Calls `String::from_utf8_lossy`. Its result is named; ASCII bytes, which are
/// valid UTF-8, come out one character each.
#[verifier::external_body]
pub(crate) fn from_utf8_lossy(bytes: &[u8]) -> (r: String)
    ensures
        r@ == lossy_text(bytes@),
        ascii_bytes(bytes@) ==> r@ == Seq::new(bytes@.len(), |i: int| bytes@[i] as char),
{
    String::from_utf8_lossy(bytes).into_owned()
}

/// Lines that hold no line feed and end in no carriage return, each ended by a line
/// feed, come apart again.
pub proof fn law_lines(rows: Seq<Seq<char>>, text: Seq<char>)
    requires
        forall|i: int|
            0 <= i < rows.len() ==> !(#[trigger] rows[i]).contains('\n') && (rows[i].len() > 0
                ==> rows[i].last() != '\r'),
        text == ended_lines(rows),
    ensures
        lines_of(text) == rows,
    decreases rows.len(),
{
    if rows.len() > 0 {
        let first = rows[0];
        let rest = rows.skip(1);
        assert forall|i: int| 0 <= i < rest.len() implies !(#[trigger] rest[i]).contains('\n') && (
        rest[i].len() > 0 ==> rest[i].last() != '\r') by {
            assert(rest[i] == rows[i + 1]);
        }
        law_lines(rest, ended_lines(rest));
        let n = first.len() as int;
        assert forall|k: int| 0 <= k < n implies text[k] != '\n' by {
            assert(text[k] == first[k]);
            assert(first.contains(first[k]));
        }
        lemma_first_at_is(text, '\n', n);
        assert(text.take(n) =~= first);
        assert(text.skip(n + 1) =~= ended_lines(rest));
        assert(seq![first] + rest =~= rows);
    }
}

/// Lines, each ended by a line feed.
pub open spec fn ended_lines(rows: Seq<Seq<char>>) -> Seq<char>
    decreases rows.len(),
{
    if rows.len() == 0 {
        Seq::empty()
    } else {
        rows[0] + seq!['\n'] + ended_lines(rows.skip(1))
    }
}

proof fn lemma_replaced_both(a: Seq<char>, b: Seq<char>, from: char, to: Seq<char>)
    ensures
        with_char_replaced(a + b, from, to) == with_char_replaced(a, from, to) + with_char_replaced(
            b,
            from,
            to,
        ),
    decreases b.len(),
{
    if b.len() == 0 {
        assert(a + b =~= a);
        assert(with_char_replaced(a, from, to) + with_char_replaced(b, from, to)
            =~= with_char_replaced(a, from, to));
    } else {
        lemma_replaced_both(a, b.drop_last(), from, to);
        assert((a + b).drop_last() =~= a + b.drop_last());
        assert((a + b).last() == b.last());
        assert(with_char_replaced(a + b, from, to) =~= with_char_replaced(a, from, to)
            + with_char_replaced(b, from, to));
    }
}

proof fn lemma_replaced_plain(s: Seq<char>, from: char, to: Seq<char>)
    requires
        !s.contains(from),
    ensures
        with_char_replaced(s, from, to) == s,
    decreases s.len(),
{
    if s.len() > 0 {
        let less = s.drop_last();
        assert(!less.contains(from)) by {
            if less.contains(from) {
                let k = choose|k: int| 0 <= k < less.len() && less[k] == from;
                assert(s[k] == from);
            }
        }
        assert(s.contains(s[s.len() - 1]));
        lemma_replaced_plain(less, from, to);
        assert(less + seq![s.last()] =~= s);
    } else {
        assert(s =~= Seq::<char>::empty());
    }
}

/// Replacing the character between parts replaces what stands between them, and
/// leaves the parts.
pub proof fn law_replacing_a_separator(parts: Seq<Seq<char>>, from: char, to: Seq<char>)
    requires
        forall|i: int| 0 <= i < parts.len() ==> !(#[trigger] parts[i]).contains(from),
    ensures
        with_char_replaced(joined(parts, seq![from]), from, to) == joined(parts, to),
    decreases parts.len(),
{
    if parts.len() == 1 {
        lemma_replaced_plain(parts[0], from, to);
        assert(joined(parts, seq![from]) == parts[0]);
        assert(joined(parts, to) == parts[0]);
    } else if parts.len() > 1 {
        let rest = parts.skip(1);
        let sep = seq![from];
        assert forall|i: int| 0 <= i < rest.len() implies !(#[trigger] rest[i]).contains(from) by {
            assert(rest[i] == parts[i + 1]);
        }
        law_replacing_a_separator(rest, from, to);
        lemma_joined_front(parts, sep);
        lemma_joined_front(parts, to);
        lemma_replaced_plain(parts[0], from, to);
        lemma_replaced_both(parts[0] + sep, joined(rest, sep), from, to);
        lemma_replaced_both(parts[0], sep, from, to);
        reveal_with_fuel(with_char_replaced, 2);
        assert(sep.drop_last() =~= Seq::<char>::empty());
        assert(with_char_replaced(sep, from, to) =~= to);
    }
}

} // verus!
