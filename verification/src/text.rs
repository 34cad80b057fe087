//! Splitting and trimming of text, stated over sequences of characters.

use vstd::prelude::*;

verus! {

/// `String::push` appends one character: afterwards the string holds what it
/// held before, followed by `c`. Nothing else is claimed of it.
pub assume_specification[ String::push ](s: &mut String, c: char)
    ensures
        final(s)@ == old(s)@.push(c),
;

/// A set of characters that a scan runs over.
#[derive(Clone, Copy, Debug)]
pub enum CharClass {
    /// The characters with the Unicode property `White_Space`.
    Whitespace,
    /// Every character that is not whitespace.
    Visible,
    /// Every character but the given one.
    Except(char),
}

/// Whether `c` has the Unicode property `White_Space`.
pub open spec fn whitespace(c: char) -> bool {
    ||| '\u{9}' <= c <= '\u{d}'
    ||| c == ' '
    ||| c == '\u{85}'
    ||| c == '\u{a0}'
    ||| c == '\u{1680}'
    ||| '\u{2000}' <= c <= '\u{200a}'
    ||| c == '\u{2028}'
    ||| c == '\u{2029}'
    ||| c == '\u{202f}'
    ||| c == '\u{205f}'
    ||| c == '\u{3000}'
}

impl CharClass {
    /// Whether `c` belongs to the class.
    pub open spec fn holds(self, c: char) -> bool {
        match self {
            CharClass::Whitespace => whitespace(c),
            CharClass::Visible => !whitespace(c),
            CharClass::Except(x) => c != x,
        }
    }

    /// Tests whether `c` belongs to the class.
    pub fn test(self, c: char) -> (r: bool)
        ensures
            r == self.holds(c),
    {
        match self {
            CharClass::Whitespace => is_whitespace(c),
            CharClass::Visible => !is_whitespace(c),
            CharClass::Except(x) => c != x,
        }
    }
}

/// Tests whether `c` is a whitespace character.
pub fn is_whitespace(c: char) -> (r: bool)
    ensures
        r == whitespace(c),
{
    (c >= '\u{9}' && c <= '\u{d}') || c == ' ' || c == '\u{85}' || c == '\u{a0}' || c == '\u{1680}'
        || (c >= '\u{2000}' && c <= '\u{200a}') || c == '\u{2028}' || c == '\u{2029}' || c
        == '\u{202f}' || c == '\u{205f}' || c == '\u{3000}'
}

/// The length of the longest prefix of `s` whose characters all belong to `class`.
pub open spec fn run_length(s: Seq<char>, class: CharClass) -> nat
    decreases s.len(),
{
    if s.len() > 0 && class.holds(s[0]) {
        1 + run_length(s.drop_first(), class)
    } else {
        0
    }
}

/// The length of the longest suffix of `s` whose characters all belong to `class`.
pub open spec fn trailing_run(s: Seq<char>, class: CharClass) -> nat
    decreases s.len(),
{
    if s.len() > 0 && class.holds(s.last()) {
        1 + trailing_run(s.drop_last(), class)
    } else {
        0
    }
}

/// A run is no longer than the sequence it starts.
pub proof fn lemma_run_length_bound(s: Seq<char>, class: CharClass)
    ensures
        0 <= run_length(s, class) <= s.len(),
    decreases s.len(),
{
    if s.len() > 0 && class.holds(s[0]) {
        lemma_run_length_bound(s.drop_first(), class);
    }
}

/// The run at the start of `s` has length `n` when the first `n` characters
/// belong to the class and the one after them, if any, does not.
pub proof fn lemma_run_length_is(s: Seq<char>, class: CharClass, n: int)
    requires
        0 <= n <= s.len(),
        forall|i: int| 0 <= i < n ==> class.holds(#[trigger] s[i]),
        n < s.len() ==> !class.holds(s[n]),
    ensures
        run_length(s, class) == n,
    decreases n,
{
    if n > 0 {
        let t = s.drop_first();
        assert forall|i: int| 0 <= i < n - 1 implies class.holds(#[trigger] t[i]) by {
            assert(t[i] == s[i + 1]);
        }
        if n - 1 < t.len() {
            assert(t[n - 1] == s[n]);
        }
        lemma_run_length_is(t, class, n - 1);
    }
}

/// The first `run_length` characters belong to the class, and the one after
/// them, if any, does not.
pub proof fn lemma_run_length_holds(s: Seq<char>, class: CharClass)
    ensures
        run_length(s, class) <= s.len(),
        forall|i: int| 0 <= i < run_length(s, class) ==> class.holds(#[trigger] s[i]),
        run_length(s, class) < s.len() ==> !class.holds(s[run_length(s, class) as int]),
    decreases s.len(),
{
    if s.len() > 0 && class.holds(s[0]) {
        let t = s.drop_first();
        lemma_run_length_holds(t, class);
        assert forall|i: int| 0 <= i < run_length(s, class) implies class.holds(
            #[trigger] s[i],
        ) by {
            if i > 0 {
                assert(s[i] == t[i - 1]);
            }
        }
        if run_length(s, class) < s.len() {
            assert(s[run_length(s, class) as int] == t[run_length(t, class) as int]);
        }
    }
}

/// The run at the end of `s` has length `n` when the last `n` characters
/// belong to the class and the one before them, if any, does not.
pub proof fn lemma_trailing_run_is(s: Seq<char>, class: CharClass, n: int)
    requires
        0 <= n <= s.len(),
        forall|i: int| s.len() - n <= i < s.len() ==> class.holds(#[trigger] s[i]),
        n < s.len() ==> !class.holds(s[s.len() - n - 1]),
    ensures
        trailing_run(s, class) == n,
    decreases n,
{
    if n > 0 {
        let t = s.drop_last();
        assert forall|i: int| t.len() - (n - 1) <= i < t.len() implies class.holds(
            #[trigger] t[i],
        ) by {
            assert(t[i] == s[i]);
        }
        if n - 1 < t.len() {
            assert(t[t.len() - (n - 1) - 1] == s[s.len() - n - 1]);
        }
        lemma_trailing_run_is(t, class, n - 1);
    }
}

/// The last `trailing_run` characters belong to the class, and the one
/// before them, if any, does not.
pub proof fn lemma_trailing_run_holds(s: Seq<char>, class: CharClass)
    ensures
        trailing_run(s, class) <= s.len(),
        forall|i: int|
            s.len() - trailing_run(s, class) <= i < s.len() ==> class.holds(#[trigger] s[i]),
        trailing_run(s, class) < s.len() ==> !class.holds(s[s.len() - trailing_run(s, class) - 1]),
    decreases s.len(),
{
    if s.len() > 0 && class.holds(s.last()) {
        let t = s.drop_last();
        lemma_trailing_run_holds(t, class);
        assert forall|i: int| s.len() - trailing_run(s, class) <= i < s.len() implies class.holds(
            #[trigger] s[i],
        ) by {
            if i < s.len() - 1 {
                assert(s[i] == t[i]);
            }
        }
        if trailing_run(s, class) < s.len() {
            assert(s[s.len() - trailing_run(s, class) - 1] == t[t.len() - trailing_run(t, class)
                - 1]);
        }
    }
}

/// The characters of `s`, in order.
pub fn chars_of(s: &str) -> (out: Vec<char>)
    ensures
        out@ == s@,
{
    let mut out: Vec<char> = Vec::new();
    for c in it: s.chars()
        invariant
            out@ == it.seq().take(it.index()),
    {
        out.push(c);
    }
    out
}

/// The string made of the characters of `chars` from `from` up to `to`.
pub(crate) fn substring(chars: &Vec<char>, from: usize, to: usize) -> (out: String)
    requires
        from <= to <= chars.len(),
    ensures
        out@ == chars@.subrange(from as int, to as int),
{
    let mut out = String::new();
    let mut i: usize = from;
    while i < to
        invariant
            from <= i <= to <= chars.len(),
            out@ == chars@.subrange(from as int, i as int),
        decreases to - i,
    {
        out.push(chars[i]);
        i += 1;
    }
    out
}

/// The string made of all the characters of `chars`.
pub fn string_of(chars: &Vec<char>) -> (out: String)
    ensures
        out@ == chars@,
{
    substring(chars, 0, chars.len())
}

/// Runs forward from `start` over the characters that belong to `class`.
pub(crate) fn scan(chars: &Vec<char>, start: usize, class: CharClass) -> (end: usize)
    requires
        start <= chars.len(),
    ensures
        start <= end <= chars.len(),
        end - start == run_length(chars@.skip(start as int), class),
{
    let mut end: usize = start;
    while end < chars.len() && class.test(chars[end])
        invariant
            start <= end <= chars.len(),
            forall|i: int| start <= i < end ==> class.holds(#[trigger] chars@[i]),
        decreases chars.len() - end,
    {
        end += 1;
    }
    proof {
        lemma_run_length_is(chars@.skip(start as int), class, end - start);
    }
    end
}

/// Runs backward from the end of `chars`, no further than `from`, over the
/// characters that belong to `class`.
pub(crate) fn scan_back(chars: &Vec<char>, from: usize, class: CharClass) -> (end: usize)
    requires
        from <= chars.len(),
    ensures
        from <= end <= chars.len(),
        chars.len() - end == trailing_run(chars@.skip(from as int), class),
{
    let mut end: usize = chars.len();
    while end > from && class.test(chars[end - 1])
        invariant
            from <= end <= chars.len(),
            forall|i: int| end <= i < chars.len() ==> class.holds(#[trigger] chars@[i]),
        decreases end,
    {
        end -= 1;
    }
    proof {
        lemma_trailing_run_is(chars@.skip(from as int), class, chars.len() - end);
    }
    end
}

/// `s` without the whitespace at its start and at its end.
pub open spec fn trimmed(s: Seq<char>) -> Seq<char> {
    let t = s.skip(run_length(s, CharClass::Whitespace) as int);
    t.take(t.len() - trailing_run(t, CharClass::Whitespace))
}

/// Trimming takes away whitespace and nothing else, and all of it at both
/// ends: `s` is its trimmed text between two runs of whitespace, and the
/// trimmed text neither starts nor ends with whitespace.
pub proof fn lemma_trimmed(s: Seq<char>)
    ensures
        exists|before: Seq<char>, after: Seq<char>|
            #![trigger before + trimmed(s) + after]
            s == before + trimmed(s) + after && run_length(before, CharClass::Whitespace)
                == before.len() && run_length(after, CharClass::Whitespace) == after.len(),
        trimmed(s).len() > 0 ==> !whitespace(trimmed(s).first()) && !whitespace(trimmed(s).last()),
{
    let class = CharClass::Whitespace;
    let a = run_length(s, class) as int;
    lemma_run_length_holds(s, class);
    let t = s.skip(a);
    let b = trailing_run(t, class) as int;
    lemma_trailing_run_holds(t, class);
    let before = s.take(a);
    let after = t.skip(t.len() - b);
    lemma_run_length_is(before, class, a);
    assert forall|i: int| 0 <= i < after.len() implies class.holds(#[trigger] after[i]) by {
        assert(after[i] == t[t.len() - b + i]);
    }
    lemma_run_length_is(after, class, b);
    assert(s =~= before + trimmed(s) + after);
    if trimmed(s).len() > 0 {
        assert(trimmed(s).first() == s[a]);
        assert(trimmed(s).last() == t[t.len() - b - 1]);
    }
}

/// Removes the whitespace at the start and at the end of `text`.
pub fn trim(text: &str) -> (out: String)
    ensures
        out@ == trimmed(text@),
{
    let chars = chars_of(text);
    let from = scan(&chars, 0, CharClass::Whitespace);
    let to = scan_back(&chars, from, CharClass::Whitespace);
    proof {
        assert(chars@.skip(0) =~= chars@);
        let t = chars@.skip(from as int);
        assert(t.take(t.len() - trailing_run(t, CharClass::Whitespace)) =~= chars@.subrange(
            from as int,
            to as int,
        ));
    }
    substring(&chars, from, to)
}

/// The pieces of `s` between the occurrences of `sep`: one more piece than
/// there are separators, any of them possibly empty.
pub open spec fn pieces(s: Seq<char>, sep: char) -> Seq<Seq<char>>
    decreases s.len(),
    via pieces_decreases
{
    let n = run_length(s, CharClass::Except(sep));
    if n >= s.len() {
        seq![s]
    } else {
        seq![s.take(n as int)] + pieces(s.skip(n as int + 1), sep)
    }
}

#[via_fn]
proof fn pieces_decreases(s: Seq<char>, sep: char) {
    lemma_run_length_bound(s, CharClass::Except(sep));
}

/// The pieces of `s` that `sep` ends: as `pieces`, but an empty last piece
/// is left out.
pub open spec fn terminated_pieces(s: Seq<char>, sep: char) -> Seq<Seq<char>> {
    let all = pieces(s, sep);
    if all.last().len() == 0 {
        all.drop_last()
    } else {
        all
    }
}

/// Splits `text` at each `sep`. What follows the last `sep` is a piece of
/// its own unless it is empty.
pub fn split_terminator(text: &str, sep: char) -> (out: Vec<String>)
    ensures
        out.deep_view() == terminated_pieces(text@, sep),
{
    let chars = chars_of(text);
    let mut out: Vec<String> = Vec::new();
    let mut start: usize = 0;
    proof {
        assert(text@.skip(0) =~= text@);
        assert(out.deep_view() + pieces(text@, sep) =~= pieces(text@, sep));
    }
    loop
        invariant_except_break
            pieces(text@, sep) == out.deep_view() + pieces(text@.skip(start as int), sep),
        invariant
            start <= chars.len(),
            chars@ == text@,
        ensures
            out.deep_view() == terminated_pieces(text@, sep),
        decreases chars.len() - start,
    {
        let end = scan(&chars, start, CharClass::Except(sep));
        let ghost before = out.deep_view();
        let ghost rest = text@.skip(start as int);
        if end == chars.len() {
            proof {
                assert(pieces(rest, sep) == seq![rest]);
                assert(pieces(text@, sep) =~= before.push(rest));
            }
            if start < end {
                out.push(substring(&chars, start, end));
                proof {
                    assert(chars@.subrange(start as int, end as int) =~= rest);
                    assert(out.deep_view() =~= before.push(rest));
                }
            } else {
                proof {
                    assert(before.push(rest).drop_last() =~= before);
                }
            }
            break ;
        }
        out.push(substring(&chars, start, end));
        proof {
            let piece = rest.take(end - start);
            assert(chars@.subrange(start as int, end as int) =~= piece);
            assert(out.deep_view() =~= before.push(piece));
            assert(rest.skip(end - start + 1) =~= text@.skip(end + 1));
            assert(before + (seq![piece] + pieces(text@.skip(end + 1), sep)) =~= before.push(piece)
                + pieces(text@.skip(end + 1), sep));
        }
        start = end + 1;
    }
    out
}

/// Whether no character of `s` is whitespace.
pub open spec fn free_of_whitespace(s: Seq<char>) -> bool {
    forall|i: int| 0 <= i < s.len() ==> !whitespace(#[trigger] s[i])
}

/// The words of `s`: its longest runs of characters that are not whitespace,
/// in order.
pub open spec fn words(s: Seq<char>) -> Seq<Seq<char>>
    decreases s.len(),
    via words_decreases
{
    let t = s.skip(run_length(s, CharClass::Whitespace) as int);
    let n = run_length(t, CharClass::Visible);
    if n == 0 {
        Seq::empty()
    } else {
        seq![t.take(n as int)] + words(t.skip(n as int))
    }
}

#[via_fn]
proof fn words_decreases(s: Seq<char>) {
    let t = s.skip(run_length(s, CharClass::Whitespace) as int);
    lemma_run_length_bound(s, CharClass::Whitespace);
    lemma_run_length_bound(t, CharClass::Visible);
}

/// Splits `text` at whitespace into its words. No word is empty.
pub fn split_whitespace(text: &str) -> (out: Vec<String>)
    ensures
        out.deep_view() == words(text@),
{
    let chars = chars_of(text);
    let mut out: Vec<String> = Vec::new();
    let mut start: usize = 0;
    proof {
        assert(text@.skip(0) =~= text@);
        assert(out.deep_view() + words(text@) =~= words(text@));
    }
    loop
        invariant_except_break
            words(text@) == out.deep_view() + words(text@.skip(start as int)),
        invariant
            start <= chars.len(),
            chars@ == text@,
        ensures
            out.deep_view() == words(text@),
        decreases chars.len() - start,
    {
        let from = scan(&chars, start, CharClass::Whitespace);
        let to = scan(&chars, from, CharClass::Visible);
        let ghost before = out.deep_view();
        let ghost rest = text@.skip(start as int);
        proof {
            assert(rest.skip(from - start) =~= text@.skip(from as int));
        }
        if to == from {
            proof {
                assert(words(rest) =~= Seq::<Seq<char>>::empty());
                assert(before + words(rest) =~= before);
            }
            break ;
        }
        out.push(substring(&chars, from, to));
        proof {
            let t = text@.skip(from as int);
            let word = t.take(to - from);
            assert(chars@.subrange(from as int, to as int) =~= word);
            assert(out.deep_view() =~= before.push(word));
            assert(t.skip(to - from) =~= text@.skip(to as int));
            assert(before + (seq![word] + words(text@.skip(to as int))) =~= before.push(word)
                + words(text@.skip(to as int)));
        }
        start = to;
    }
    out
}

/// `parts` written one after the other with `sep` between them.
pub open spec fn joined(parts: Seq<Seq<char>>, sep: char) -> Seq<char>
    decreases parts.len(),
{
    if parts.len() == 0 {
        Seq::empty()
    } else if parts.len() == 1 {
        parts[0]
    } else {
        parts[0] + seq![sep] + joined(parts.drop_first(), sep)
    }
}

/// Whether `sep` occurs nowhere in `s`.
pub open spec fn free_of(s: Seq<char>, sep: char) -> bool {
    forall|i: int| 0 <= i < s.len() ==> #[trigger] s[i] != sep
}

/// Splitting undoes joining: where one or more parts, none of which holds
/// `sep`, are joined by `sep`, the pieces of the whole are those parts.
pub proof fn lemma_pieces_of_joined(parts: Seq<Seq<char>>, sep: char)
    requires
        parts.len() >= 1,
        forall|i: int| 0 <= i < parts.len() ==> free_of(#[trigger] parts[i], sep),
    ensures
        pieces(joined(parts, sep), sep) == parts,
    decreases parts.len(),
{
    let whole = joined(parts, sep);
    let first = parts[0];
    let class = CharClass::Except(sep);
    assert(free_of(first, sep));
    if parts.len() == 1 {
        lemma_run_length_is(whole, class, whole.len() as int);
        assert(pieces(whole, sep) =~= parts);
    } else {
        let rest = parts.drop_first();
        assert forall|i: int| 0 <= i < rest.len() implies free_of(#[trigger] rest[i], sep) by {
            assert(rest[i] == parts[i + 1]);
        }
        lemma_pieces_of_joined(rest, sep);
        assert forall|i: int| 0 <= i < first.len() implies class.holds(#[trigger] whole[i]) by {
            assert(whole[i] == first[i]);
        }
        assert(whole[first.len() as int] == sep);
        lemma_run_length_is(whole, class, first.len() as int);
        assert(whole.take(first.len() as int) =~= first);
        assert(whole.skip(first.len() as int + 1) =~= joined(rest, sep));
        assert(seq![first] + rest =~= parts);
    }
}

/// Joining undoes splitting: the pieces of `s` are at least one, none of
/// them holds `sep`, and joined by `sep` they give `s` back.
pub proof fn lemma_joined_pieces(s: Seq<char>, sep: char)
    ensures
        pieces(s, sep).len() >= 1,
        forall|i: int| 0 <= i < pieces(s, sep).len() ==> free_of(#[trigger] pieces(s, sep)[i], sep),
        joined(pieces(s, sep), sep) == s,
    decreases s.len(),
{
    let class = CharClass::Except(sep);
    let n = run_length(s, class);
    lemma_run_length_holds(s, class);
    if n < s.len() {
        let first = s.take(n as int);
        let after = s.skip(n as int + 1);
        let rest = pieces(after, sep);
        lemma_joined_pieces(after, sep);
        let all = pieces(s, sep);
        assert(all == seq![first] + rest);
        assert(all.drop_first() =~= rest);
        assert forall|i: int| 0 <= i < all.len() implies free_of(#[trigger] all[i], sep) by {
            if i > 0 {
                assert(all[i] == rest[i - 1]);
            }
        }
        assert(s[n as int] == sep);
        assert(first + seq![sep] + after =~= s);
    }
}

/// Every word holds at least one character, and none that is whitespace.
pub proof fn lemma_words_are_visible(s: Seq<char>)
    ensures
        forall|i: int|
            0 <= i < words(s).len() ==> (#[trigger] words(s)[i]).len() > 0 && free_of_whitespace(
                words(s)[i],
            ),
    decreases s.len(),
{
    let t = s.skip(run_length(s, CharClass::Whitespace) as int);
    let n = run_length(t, CharClass::Visible);
    lemma_run_length_bound(s, CharClass::Whitespace);
    lemma_run_length_holds(t, CharClass::Visible);
    if n > 0 {
        let word = t.take(n as int);
        let rest = words(t.skip(n as int));
        lemma_words_are_visible(t.skip(n as int));
        assert forall|i: int| 0 <= i < words(s).len() implies (#[trigger] words(s)[i]).len() > 0
            && free_of_whitespace(words(s)[i]) by {
            if i > 0 {
                assert(words(s)[i] == rest[i - 1]);
            } else {
                assert forall|j: int| 0 <= j < word.len() implies !whitespace(
                    #[trigger] word[j],
                ) by {
                    assert(word[j] == t[j]);
                }
            }
        }
    }
}

} // verus!
