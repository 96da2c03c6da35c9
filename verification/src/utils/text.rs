//! Text in and out of the engine: strings as sequences of characters.

use vstd::prelude::*;
use vstd::string::StrSliceExecFns;

verus! {

/// Whether `c` is white space: one of the 25 characters that have
/// Unicode's property White_Space.
pub open spec fn spec_white_space(c: char) -> bool {
    let n = c as u32;
    ||| 0x9 <= n <= 0xd
    ||| n == 0x20
    ||| n == 0x85
    ||| n == 0xa0
    ||| n == 0x1680
    ||| 0x2000 <= n <= 0x200a
    ||| n == 0x2028
    ||| n == 0x2029
    ||| n == 0x202f
    ||| n == 0x205f
    ||| n == 0x3000
}

/// `char::is_whitespace` of the standard library: whether the character
/// has Unicode's property White_Space.
#[verifier::external_body]
pub(crate) fn is_white_space(c: char) -> (r: bool)
    ensures
        r == spec_white_space(c),
{
    c.is_whitespace()
}

/// Where the first character of `text` at or after `from` stands that is
/// no white space, or the length of `text` if there is none.
pub open spec fn first_mark(text: Seq<char>, from: int) -> int
    decreases text.len() - from,
{
    if from >= text.len() {
        text.len() as int
    } else if !spec_white_space(text[from]) {
        from
    } else {
        first_mark(text, from + 1)
    }
}

/// The place behind the last character of `text` before `to` that is no
/// white space, or 0 if there is none.
pub open spec fn last_mark(text: Seq<char>, to: int) -> int
    decreases to,
{
    if to <= 0 {
        0
    } else if !spec_white_space(text[to - 1]) {
        to
    } else {
        last_mark(text, to - 1)
    }
}

/// `text` without the white space at its start and at its end.
pub open spec fn spec_trim(text: Seq<char>) -> Seq<char> {
    let from = first_mark(text, 0);
    let to = last_mark(text, text.len() as int);
    if from >= to {
        Seq::empty()
    } else {
        text.subrange(from, to)
    }
}

/// `str::trim` of the standard library: the text without the white space
/// at its start and at its end, white space being the characters with
/// Unicode's property White_Space.
#[verifier::external_body]
pub(crate) fn trim_str(text: &str) -> (trimmed: &str)
    ensures
        trimmed@ == spec_trim(text@),
{
    text.trim()
}

/// A text that neither begins nor ends with white space is trimmed to
/// itself.
pub proof fn lemma_trim_whole(text: Seq<char>)
    requires
        text.len() > 0,
        !spec_white_space(text[0]),
        !spec_white_space(text[text.len() - 1]),
    ensures
        spec_trim(text) == text,
{
    assert(first_mark(text, 0) == 0);
    assert(last_mark(text, text.len() as int) == text.len());
    assert(text.subrange(0, text.len() as int) =~= text);
}

/// `String::push` of the standard library: appends one character.
#[verifier::external_body]
pub(crate) fn push_char(text: &mut String, c: char)
    ensures
        final(text)@ == old(text)@.push(c),
{
    text.push(c)
}

/// The characters of `text`.
pub fn chars_of(text: &str) -> (chars: Vec<char>)
    ensures
        chars@ == text@,
{
    let n = text.unicode_len();
    let mut chars: Vec<char> = Vec::with_capacity(n);
    let mut i: usize = 0;
    while i < n
        invariant
            n == text@.len(),
            i <= n,
            chars@ == text@.subrange(0, i as int),
        decreases n - i,
    {
        chars.push(text.get_char(i));
        proof {
            assert(chars@ =~= text@.subrange(0, i + 1));
        }
        i = i + 1;
    }
    proof {
        assert(chars@ =~= text@);
    }
    chars
}

/// The string of the characters `chars`.
pub fn string_of(chars: &Vec<char>) -> (text: String)
    ensures
        text@ == chars@,
{
    let mut text = String::new();
    let mut i: usize = 0;
    while i < chars.len()
        invariant
            i <= chars.len(),
            text@ == chars@.subrange(0, i as int),
        decreases chars.len() - i,
    {
        push_char(&mut text, chars[i]);
        proof {
            assert(text@ =~= chars@.subrange(0, i + 1));
        }
        i = i + 1;
    }
    proof {
        assert(text@ =~= chars@);
    }
    text
}

/// Where the first `sep` at or after `from` stands in `text`, or the
/// length of `text` if there is none.
pub open spec fn find_sep(text: Seq<char>, sep: char, from: int) -> int
    decreases text.len() - from,
{
    if from >= text.len() {
        text.len() as int
    } else if text[from] == sep {
        from
    } else {
        find_sep(text, sep, from + 1)
    }
}

/// The pieces of `text` from `from` on that `sep` separates.
pub open spec fn split_from(text: Seq<char>, sep: char, from: int) -> Seq<Seq<char>>
    decreases text.len() - from,
{
    let end = find_sep(text, sep, from);
    if from > text.len() {
        Seq::empty()
    } else if end >= text.len() || end < from {
        seq![text.subrange(from, text.len() as int)]
    } else {
        seq![text.subrange(from, end)] + split_from(text, sep, end + 1)
    }
}

/// The pieces of `text` that `sep` separates: one more than there are
/// separators, empty ones among them where two separators meet or one stands
/// at an end.
pub open spec fn split_on(text: Seq<char>, sep: char) -> Seq<Seq<char>> {
    split_from(text, sep, 0)
}

/// The first separator is at or after `from` and nothing before it is
/// one.
pub proof fn lemma_find_sep(text: Seq<char>, sep: char, from: int)
    requires
        0 <= from <= text.len(),
    ensures
        from <= find_sep(text, sep, from) <= text.len(),
        find_sep(text, sep, from) < text.len() ==> text[find_sep(text, sep, from)] == sep,
        forall|j: int| from <= j < find_sep(text, sep, from) ==> text[j] != sep,
    decreases text.len() - from,
{
    if from < text.len() && text[from] != sep {
        lemma_find_sep(text, sep, from + 1);
    }
}

/// With no separator from `from` up to `to`, the search from `from` is the
/// search from `to`.
pub proof fn lemma_find_sep_skip(text: Seq<char>, sep: char, from: int, to: int)
    requires
        0 <= from <= to <= text.len(),
        forall|j: int| from <= j < to ==> text[j] != sep,
    ensures
        find_sep(text, sep, from) == find_sep(text, sep, to),
    decreases to - from,
{
    if from < to {
        lemma_find_sep_skip(text, sep, from + 1, to);
    }
}

/// The views of the texts `parts`.
pub open spec fn texts(parts: Seq<Vec<char>>) -> Seq<Seq<char>> {
    Seq::new(parts.len(), |i: int| parts[i]@)
}

/// The pieces of `text` that `sep` separates.
pub fn split(text: &Vec<char>, sep: char) -> (parts: Vec<Vec<char>>)
    ensures
        texts(parts@) == split_on(text@, sep),
{
    let mut parts: Vec<Vec<char>> = Vec::new();
    let mut current: Vec<char> = Vec::new();
    let mut i: usize = 0;
    let ghost mut from: int = 0;
    proof {
        assert(texts(parts@) =~= Seq::<Seq<char>>::empty());
        assert(current@ =~= text@.subrange(0, 0));
    }
    while i < text.len()
        invariant
            0 <= from <= i <= text.len(),
            current@ == text@.subrange(from, i as int),
            forall|j: int| from <= j < i ==> text@[j] != sep,
            texts(parts@) + split_from(text@, sep, from) == split_on(text@, sep),
        decreases text.len() - i,
    {
        let c = text[i];
        if c == sep {
            proof {
                lemma_find_sep_skip(text@, sep, from, i as int);
                assert(find_sep(text@, sep, i as int) == i);
                lemma_find_sep(text@, sep, from);
                assert(split_from(text@, sep, from) == seq![text@.subrange(from, i as int)]
                    + split_from(text@, sep, i + 1));
                assert(texts(parts@.push(current)) =~= texts(parts@) + seq![current@]);
                assert((texts(parts@) + seq![current@]) + split_from(text@, sep, i + 1) =~= texts(
                    parts@,
                ) + (seq![current@] + split_from(text@, sep, i + 1)));
            }
            parts.push(current);
            current = Vec::new();
            proof {
                from = i + 1;
                assert(current@ =~= text@.subrange(from, i + 1));
            }
        } else {
            current.push(c);
            proof {
                assert(current@ =~= text@.subrange(from, i + 1));
            }
        }
        i = i + 1;
    }
    proof {
        lemma_find_sep_skip(text@, sep, from, text.len() as int);
        assert(split_from(text@, sep, from) == seq![text@.subrange(from, text.len() as int)]);
        assert(texts(parts@.push(current)) =~= texts(parts@) + seq![current@]);
    }
    parts.push(current);
    parts
}

/// Whether `text` is exactly the characters `expected`.
pub fn text_is(text: &Vec<char>, expected: char) -> (r: bool)
    ensures
        r == (text@ == seq![expected]),
{
    let r = text.len() == 1 && text[0] == expected;
    proof {
        if r {
            assert(text@ =~= seq![expected]);
        }
    }
    r
}

/// Whether `text` is the word `word`.
pub fn word_is(text: &Vec<char>, word: &str) -> (r: bool)
    ensures
        r == (text@ == word@),
{
    let n = word.unicode_len();
    if text.len() != n {
        return false;
    }
    let mut i: usize = 0;
    while i < n
        invariant
            n == word@.len(),
            text.len() == n,
            i <= n,
            forall|j: int| 0 <= j < i ==> text@[j] == word@[j],
        decreases n - i,
    {
        if text[i] != word.get_char(i) {
            return false;
        }
        i = i + 1;
    }
    proof {
        assert(text@ =~= word@);
    }
    true
}

/// Where the first mark at or after `from` stands in `blank`, or the
/// length of `blank` if there is none.
pub open spec fn run_end(blank: Seq<bool>, from: int) -> int
    decreases blank.len() - from,
{
    if from >= blank.len() {
        blank.len() as int
    } else if blank[from] {
        from
    } else {
        run_end(blank, from + 1)
    }
}

/// With no mark from `from` up to `to`, the search from `from` is the
/// search from `to`.
pub proof fn lemma_run_end_skip(blank: Seq<bool>, from: int, to: int)
    requires
        0 <= from <= to <= blank.len(),
        forall|j: int| from <= j < to ==> !blank[j],
    ensures
        run_end(blank, from) == run_end(blank, to),
    decreases to - from,
{
    if from < to {
        lemma_run_end_skip(blank, from + 1, to);
    }
}

/// The runs of `text` from `from` on: each a longest stretch of characters
/// none of which `blank` marks, in their order.
pub open spec fn runs_from(text: Seq<char>, blank: Seq<bool>, from: int) -> Seq<Seq<char>>
    decreases text.len() - from,
{
    let end = run_end(blank, from);
    if from >= text.len() || from < 0 {
        Seq::empty()
    } else if blank[from] || end <= from || end > text.len() {
        runs_from(text, blank, from + 1)
    } else {
        seq![text.subrange(from, end)] + runs_from(text, blank, end)
    }
}

/// The runs of `text`: each a longest stretch of characters none of which
/// `blank` marks, in their order. None is empty.
pub open spec fn spec_runs(text: Seq<char>, blank: Seq<bool>) -> Seq<Seq<char>> {
    runs_from(text, blank, 0)
}

/// The runs of `text`, of which `blank` marks the characters that
/// separate.
pub fn runs(text: &Vec<char>, blank: &Vec<bool>) -> (found: Vec<Vec<char>>)
    requires
        blank@.len() == text@.len(),
    ensures
        texts(found@) == spec_runs(text@, blank@),
{
    let mut found: Vec<Vec<char>> = Vec::new();
    let mut current: Vec<char> = Vec::new();
    let mut i: usize = 0;
    let ghost mut from: int = 0;
    proof {
        assert(texts(found@) =~= Seq::<Seq<char>>::empty());
        assert(current@ =~= text@.subrange(0, 0));
    }
    while i < text.len()
        invariant
            blank@.len() == text@.len(),
            0 <= from <= i <= text.len(),
            current@ == text@.subrange(from, i as int),
            forall|j: int| from <= j < i ==> !blank@[j],
            texts(found@) + runs_from(text@, blank@, from) == spec_runs(text@, blank@),
        decreases text.len() - i,
    {
        if blank[i] {
            proof {
                lemma_run_end_skip(blank@, from, i as int);
                assert(run_end(blank@, i as int) == i);
                assert(runs_from(text@, blank@, i as int) == runs_from(text@, blank@, i + 1));
            }
            if current.len() > 0 {
                proof {
                    assert(runs_from(text@, blank@, from) == seq![text@.subrange(from, i as int)]
                        + runs_from(text@, blank@, i as int));
                    assert(texts(found@.push(current)) =~= texts(found@) + seq![current@]);
                    assert((texts(found@) + seq![current@]) + runs_from(text@, blank@, i + 1)
                        =~= texts(found@) + (seq![current@] + runs_from(text@, blank@, i + 1)));
                }
                found.push(current);
                current = Vec::new();
            }
            proof {
                from = i + 1;
                assert(current@ =~= text@.subrange(from, i + 1));
            }
        } else {
            current.push(text[i]);
            proof {
                assert(current@ =~= text@.subrange(from, i + 1));
            }
        }
        i = i + 1;
    }
    if current.len() > 0 {
        proof {
            lemma_run_end_skip(blank@, from, text.len() as int);
            assert(runs_from(text@, blank@, from) == seq![text@.subrange(from, text.len() as int)]
                + runs_from(text@, blank@, text.len() as int));
            assert(texts(found@.push(current)) =~= texts(found@) + seq![current@]);
            assert(texts(found@) + seq![current@] =~= spec_runs(text@, blank@));
        }
        found.push(current);
    } else {
        proof {
            assert(texts(found@) =~= spec_runs(text@, blank@));
        }
    }
    found
}

/// Of each character of `text`, whether it is white space.
pub open spec fn white_marks(text: Seq<char>) -> Seq<bool> {
    Seq::new(text.len(), |i: int| spec_white_space(text[i]))
}

/// The words of `text`: what white space separates, each a longest stretch
/// of characters that are none.
pub open spec fn spec_words(text: Seq<char>) -> Seq<Seq<char>> {
    spec_runs(text, white_marks(text))
}

/// The words of `text`.
pub fn words(text: &Vec<char>) -> (found: Vec<Vec<char>>)
    ensures
        texts(found@) == spec_words(text@),
{
    let mut blank: Vec<bool> = Vec::with_capacity(text.len());
    let mut i: usize = 0;
    while i < text.len()
        invariant
            i <= text.len(),
            blank@.len() == i,
            forall|j: int| 0 <= j < i ==> blank@[j] == spec_white_space(text@[j]),
        decreases text.len() - i,
    {
        blank.push(is_white_space(text[i]));
        i = i + 1;
    }
    proof {
        assert(blank@ =~= white_marks(text@));
    }
    runs(text, &blank)
}

/// The texts from number `from` up to number `to` of `parts`, joined by
/// single spaces.
pub open spec fn joined(parts: Seq<Seq<char>>, from: int, to: int) -> Seq<char>
    decreases to - from,
{
    if to <= from {
        Seq::empty()
    } else if to == from + 1 {
        parts[from]
    } else {
        joined(parts, from, to - 1) + seq![' '] + parts[to - 1]
    }
}

/// The texts from number `from` up to number `to` of `parts`, joined by
/// single spaces.
pub fn join(parts: &Vec<Vec<char>>, from: usize, to: usize) -> (text: Vec<char>)
    requires
        from <= to <= parts.len(),
    ensures
        text@ == joined(texts(parts@), from as int, to as int),
{
    let mut text: Vec<char> = Vec::new();
    let mut i: usize = from;
    let ghost all = texts(parts@);
    proof {
        assert(text@ =~= joined(all, from as int, from as int));
    }
    while i < to
        invariant
            from <= i <= to <= parts.len(),
            all == texts(parts@),
            text@ == joined(all, from as int, i as int),
        decreases to - i,
    {
        let ghost before = text@;
        if i > from {
            text.push(' ');
        }
        let mut j: usize = 0;
        let ghost middle = text@;
        while j < parts[i].len()
            invariant
                i < parts.len(),
                j <= parts[i as int].len(),
                text@ == middle + parts[i as int]@.subrange(0, j as int),
            decreases parts[i as int].len() - j,
        {
            text.push(parts[i][j]);
            proof {
                assert(text@ =~= middle + parts[i as int]@.subrange(0, j + 1));
            }
            j = j + 1;
        }
        proof {
            assert(parts[i as int]@.subrange(0, j as int) =~= parts[i as int]@);
            assert(all[i as int] == parts[i as int]@);
            if i > from {
                assert(text@ =~= before + seq![' '] + all[i as int]);
            } else {
                assert(text@ =~= all[i as int]);
            }
        }
        i = i + 1;
    }
    text
}

/// `text` holds no `sep`.
pub open spec fn free_of(text: Seq<char>, sep: char) -> bool {
    forall|j: int| 0 <= j < text.len() ==> #[trigger] text[j] != sep
}

/// A text without separator is one piece.
pub proof fn lemma_split_whole(text: Seq<char>, sep: char)
    requires
        free_of(text, sep),
    ensures
        split_on(text, sep) == seq![text],
{
    lemma_find_sep_skip(text, sep, 0, text.len() as int);
    assert(text.subrange(0, text.len() as int) =~= text);
}

/// Searching in a text behind a prefix is searching in the text alone.
proof fn lemma_find_sep_shift(a: Seq<char>, rest: Seq<char>, sep: char, k: int)
    requires
        0 <= k <= rest.len(),
    ensures
        find_sep(a + rest, sep, a.len() + k) == a.len() + find_sep(rest, sep, k),
    decreases rest.len() - k,
{
    if k < rest.len() {
        assert((a + rest)[a.len() + k] == rest[k]);
        if rest[k] != sep {
            lemma_find_sep_shift(a, rest, sep, k + 1);
        }
    }
}

/// Splitting a text behind a prefix is splitting the text alone.
proof fn lemma_split_from_shift(a: Seq<char>, rest: Seq<char>, sep: char, k: int)
    requires
        0 <= k <= rest.len(),
    ensures
        split_from(a + rest, sep, a.len() + k) == split_from(rest, sep, k),
    decreases rest.len() - k,
{
    let whole = a + rest;
    lemma_find_sep_shift(a, rest, sep, k);
    lemma_find_sep(rest, sep, k);
    let end = find_sep(rest, sep, k);
    if end >= rest.len() {
        assert(whole.subrange(a.len() + k, whole.len() as int) =~= rest.subrange(
            k,
            rest.len() as int,
        ));
    } else {
        assert(whole.subrange(a.len() + k, a.len() + end) =~= rest.subrange(k, end));
        lemma_split_from_shift(a, rest, sep, end + 1);
    }
}

/// A text that begins with a piece without separator and a separator
/// splits into that piece and the pieces of the rest.
pub proof fn lemma_split_prepend(a: Seq<char>, sep: char, rest: Seq<char>)
    requires
        free_of(a, sep),
    ensures
        split_on(a + seq![sep] + rest, sep) == seq![a] + split_on(rest, sep),
{
    let head = a + seq![sep];
    let whole = head + rest;
    assert forall|j: int| 0 <= j < a.len() implies whole[j] != sep by {
        assert(whole[j] == a[j]);
    }
    lemma_find_sep_skip(whole, sep, 0, a.len() as int);
    assert(whole[a.len() as int] == sep);
    assert(find_sep(whole, sep, a.len() as int) == a.len());
    assert(whole.subrange(0, a.len() as int) =~= a);
    lemma_split_from_shift(head, rest, sep, 0);
}

/// Appends the characters of `text` to `out`.
pub fn push_text(out: &mut Vec<char>, text: &str)
    ensures
        final(out)@ == old(out)@ + text@,
{
    let n = text.unicode_len();
    let mut i: usize = 0;
    proof {
        assert(out@ =~= old(out)@ + text@.subrange(0, 0));
    }
    while i < n
        invariant
            n == text@.len(),
            i <= n,
            out@ == old(out)@ + text@.subrange(0, i as int),
        decreases n - i,
    {
        out.push(text.get_char(i));
        proof {
            assert(out@ =~= old(out)@ + text@.subrange(0, i + 1));
        }
        i = i + 1;
    }
    proof {
        assert(text@.subrange(0, n as int) =~= text@);
    }
}

} // verus!
