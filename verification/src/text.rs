//! Text handling for option lists: lines, trimming, and room-code case.

use itertools::Itertools;
use vstd::prelude::*;

verus! {

/// Whether a character counts as white space: whether it has the Unicode
/// property `White_Space`, as `char::is_whitespace` has it.
pub open spec fn is_whitespace(c: char) -> bool {
    ||| '\u{9}' <= c && c <= '\u{d}'
    ||| c == ' '
    ||| c == '\u{85}'
    ||| c == '\u{a0}'
    ||| c == '\u{1680}'
    ||| '\u{2000}' <= c && c <= '\u{200a}'
    ||| c == '\u{2028}'
    ||| c == '\u{2029}'
    ||| c == '\u{202f}'
    ||| c == '\u{205f}'
    ||| c == '\u{3000}'
}

/// Whether a character counts as white space.
pub fn char_is_whitespace(c: char) -> (b: bool)
    ensures
        b == is_whitespace(c),
{
    ('\u{9}' <= c && c <= '\u{d}') || c == ' ' || c == '\u{85}' || c == '\u{a0}' || c == '\u{1680}'
        || ('\u{2000}' <= c && c <= '\u{200a}') || c == '\u{2028}' || c == '\u{2029}' || c
        == '\u{202f}' || c == '\u{205f}' || c == '\u{3000}'
}

/// `s` without its leading white space.
pub open spec fn strip_leading(s: Seq<char>) -> Seq<char>
    decreases s.len(),
{
    if s.len() > 0 && is_whitespace(s[0]) {
        strip_leading(s.drop_first())
    } else {
        s
    }
}

/// `s` without its trailing white space.
pub open spec fn strip_trailing(s: Seq<char>) -> Seq<char>
    decreases s.len(),
{
    if s.len() > 0 && is_whitespace(s.last()) {
        strip_trailing(s.drop_last())
    } else {
        s
    }
}

/// `s` without leading and trailing white space.
pub open spec fn trimmed(s: Seq<char>) -> Seq<char> {
    strip_trailing(strip_leading(s))
}

/// The pieces of `s` between its newline characters. There is always at
/// least one piece, and a trailing newline is followed by an empty piece.
pub open spec fn lines(s: Seq<char>) -> Seq<Seq<char>>
    decreases s.len(),
{
    if s.len() == 0 {
        seq![Seq::<char>::empty()]
    } else {
        let before = lines(s.drop_last());
        if s.last() == '\n' {
            before.push(Seq::<char>::empty())
        } else {
            before.drop_last().push(before.last().push(s.last()))
        }
    }
}

/// The given lines, each trimmed, without those that are empty after
/// trimming.
pub open spec fn kept_of(ls: Seq<Seq<char>>) -> Seq<Seq<char>> {
    ls.map_values(|l: Seq<char>| trimmed(l)).filter(|t: Seq<char>| t.len() > 0)
}

/// The lines of `raw`, each trimmed, without those that are empty after
/// trimming.
pub open spec fn kept_lines(raw: Seq<char>) -> Seq<Seq<char>> {
    kept_of(lines(raw))
}

/// The option texts that `raw` lists: its trimmed, non-empty lines, each
/// text once, in the order of first occurrence.
pub open spec fn option_texts(raw: Seq<char>) -> Seq<Seq<char>> {
    first_occurrences(kept_lines(raw))
}

/// `s` with every repeated element dropped; the first occurrence stays where
/// it is.
pub open spec fn first_occurrences(s: Seq<Seq<char>>) -> Seq<Seq<char>>
    decreases s.len(),
{
    if s.len() == 0 {
        s
    } else {
        let before = first_occurrences(s.drop_last());
        if before.contains(s.last()) {
            before
        } else {
            before.push(s.last())
        }
    }
}

/// A trimmed text has no white space at either end, and trimming it again
/// changes nothing.
pub proof fn lemma_trimmed_is_fixed(s: Seq<char>)
    ensures
        trimmed(s).len() > 0 ==> !is_whitespace(trimmed(s)[0]) && !is_whitespace(
            trimmed(s).last(),
        ),
        trimmed(trimmed(s)) == trimmed(s),
{
    lemma_strip_leading_shape(s);
    let lead = strip_leading(s);
    lemma_strip_trailing_shape(lead);
    let t = strip_trailing(lead);
    if t.len() > 0 {
        assert(t[0] == lead[0]);
        assert(strip_leading(t) == t);
        assert(strip_trailing(t) == t);
    } else {
        assert(strip_leading(t) == t);
        assert(strip_trailing(t) == t);
    }
}

/// `strip_leading(s)` is a suffix of `s` that does not begin with white space.
pub proof fn lemma_strip_leading_shape(s: Seq<char>)
    ensures
        strip_leading(s).len() <= s.len(),
        strip_leading(s) == s.subrange(s.len() - strip_leading(s).len(), s.len() as int),
        strip_leading(s).len() > 0 ==> !is_whitespace(strip_leading(s)[0]),
    decreases s.len(),
{
    if s.len() > 0 && is_whitespace(s[0]) {
        let rest = s.drop_first();
        lemma_strip_leading_shape(rest);
        let k = strip_leading(rest).len();
        assert(rest.subrange(rest.len() - k, rest.len() as int) =~= s.subrange(
            s.len() - k,
            s.len() as int,
        ));
    } else {
        assert(s.subrange(0, s.len() as int) =~= s);
    }
}

/// `strip_trailing(s)` is a prefix of `s` that does not end with white space.
pub proof fn lemma_strip_trailing_shape(s: Seq<char>)
    ensures
        strip_trailing(s).len() <= s.len(),
        strip_trailing(s) == s.subrange(0, strip_trailing(s).len() as int),
        strip_trailing(s).len() > 0 ==> !is_whitespace(strip_trailing(s).last()),
    decreases s.len(),
{
    if s.len() > 0 && is_whitespace(s.last()) {
        let rest = s.drop_last();
        lemma_strip_trailing_shape(rest);
        let k = strip_trailing(rest).len();
        assert(rest.subrange(0, k as int) =~= s.subrange(0, k as int));
    } else {
        assert(s.subrange(0, s.len() as int) =~= s);
    }
}

/// The lower-case form of an ASCII capital letter; any other character
/// itself.
pub open spec fn lower_char(c: char) -> char {
    if 'A' <= c && c <= 'Z' {
        ((c as u8) + 32) as char
    } else {
        c
    }
}

/// `s` with its ASCII capital letters in lower case.
pub open spec fn ascii_lower(s: Seq<char>) -> Seq<char> {
    s.map_values(|c: char| lower_char(c))
}

/// `str::to_ascii_lowercase`: a copy in which the letters `A` to `Z` are
/// replaced by `a` to `z` and every other character stays.
#[verifier::external_body]
pub(crate) fn to_ascii_lowercase(s: &str) -> (r: String)
    ensures
        r@ == ascii_lower(s@),
{
    s.to_ascii_lowercase()
}

/// The characters of `s`, in order.
pub fn chars_of(s: &str) -> (chars: Vec<char>)
    ensures
        chars@ == s@,
{
    let n: usize = s.unicode_len();
    let mut chars: Vec<char> = Vec::new();
    let mut i: usize = 0;
    while i < n
        invariant
            n == s@.len(),
            i <= n,
            chars@ == s@.subrange(0, i as int),
        decreases n - i,
    {
        chars.push(s.get_char(i));
        assert(chars@ =~= s@.subrange(0, i + 1));
        i += 1;
    }
    assert(s@.subrange(0, n as int) =~= s@);
    chars
}

/// The bounds of what trimming leaves of `chars[from..to]`.
pub(crate) fn trim_bounds(chars: &Vec<char>, from: usize, to: usize) -> (r: (usize, usize))
    requires
        from <= to <= chars.len(),
    ensures
        from <= r.0 <= r.1 <= to,
        chars@.subrange(r.0 as int, r.1 as int) == trimmed(chars@.subrange(from as int, to as int)),
{
    let ghost whole = chars@.subrange(from as int, to as int);
    let mut a: usize = from;
    while a < to && char_is_whitespace(chars[a])
        invariant
            from <= a <= to <= chars.len(),
            strip_leading(whole) == strip_leading(chars@.subrange(a as int, to as int)),
        decreases to - a,
    {
        assert(chars@.subrange(a as int, to as int).drop_first() =~= chars@.subrange(
            a + 1,
            to as int,
        ));
        a += 1;
    }
    let ghost lead = chars@.subrange(a as int, to as int);
    assert(strip_leading(whole) == lead);
    let mut b: usize = to;
    while a < b && char_is_whitespace(chars[b - 1])
        invariant
            a <= b <= to <= chars.len(),
            strip_trailing(lead) == strip_trailing(chars@.subrange(a as int, b as int)),
        decreases b - a,
    {
        assert(chars@.subrange(a as int, b as int).drop_last() =~= chars@.subrange(
            a as int,
            b - 1,
        ));
        b -= 1;
    }
    (a, b)
}

/// `text` without leading and trailing white space.
pub fn trim(text: &str) -> (r: String)
    ensures
        r@ == trimmed(text@),
{
    let chars = chars_of(text);
    let (a, b) = trim_bounds(&chars, 0, chars.len());
    assert(chars@.subrange(0, chars.len() as int) =~= chars@);
    text.substring_char(a, b).to_owned()
}

/// Adding one more line adds its trimmed text, unless that is empty.
pub proof fn lemma_kept_of_push(ls: Seq<Seq<char>>, l: Seq<char>)
    ensures
        kept_of(ls.push(l)) == if trimmed(l).len() > 0 {
            kept_of(ls).push(trimmed(l))
        } else {
            kept_of(ls)
        },
{
    let f = |l: Seq<char>| trimmed(l);
    let p = |t: Seq<char>| t.len() > 0;
    assert(ls.push(l).map_values(f) =~= ls.map_values(f).push(trimmed(l)));
    ls.map_values(f).lemma_filter_push(trimmed(l), p);
}

/// Appends what trimming leaves of `chars[from..to]` to `out`, unless
/// nothing is left.
fn push_trimmed(text: &str, chars: &Vec<char>, from: usize, to: usize, out: &mut Vec<String>)
    requires
        chars@ == text@,
        from <= to <= chars.len(),
    ensures
        final(out).deep_view() == if trimmed(chars@.subrange(from as int, to as int)).len() > 0 {
            old(out).deep_view().push(trimmed(chars@.subrange(from as int, to as int)))
        } else {
            old(out).deep_view()
        },
{
    let (a, b) = trim_bounds(chars, from, to);
    if a < b {
        let piece = text.substring_char(a, b).to_owned();
        out.push(piece);
        assert(out.deep_view() =~= old(out).deep_view().push(piece@));
    }
}

/// The lines of `text`, each trimmed, without those that trimming empties.
pub fn trimmed_lines(text: &str) -> (out: Vec<String>)
    ensures
        out.deep_view() == kept_lines(text@),
{
    let chars = chars_of(text);
    let n: usize = chars.len();
    let mut out: Vec<String> = Vec::new();
    let mut start: usize = 0;
    let mut i: usize = 0;
    assert(chars@.subrange(0, 0) =~= Seq::<char>::empty());
    assert(lines(Seq::<char>::empty()).drop_last() =~= Seq::<Seq<char>>::empty());
    assert(out.deep_view() =~= kept_of(Seq::<Seq<char>>::empty()));
    while i < n
        invariant
            chars@ == text@,
            n == chars.len(),
            start <= i <= n,
            lines(chars@.subrange(0, i as int)).len() >= 1,
            lines(chars@.subrange(0, i as int)).last() == chars@.subrange(start as int, i as int),
            out.deep_view() == kept_of(lines(chars@.subrange(0, i as int)).drop_last()),
        decreases n - i,
    {
        let ghost before = lines(chars@.subrange(0, i as int));
        let ghost next = chars@.subrange(0, i + 1);
        assert(next.drop_last() =~= chars@.subrange(0, i as int));
        assert(next.last() == chars@[i as int]);
        if chars[i] == '\n' {
            push_trimmed(text, &chars, start, i, &mut out);
            proof {
                lemma_kept_of_push(before.drop_last(), before.last());
                assert(before.drop_last().push(before.last()) =~= before);
                assert(lines(next) == before.push(Seq::<char>::empty()));
                assert(lines(next).drop_last() =~= before);
                assert(chars@.subrange(i + 1, i + 1) =~= Seq::<char>::empty());
            }
            start = i + 1;
        } else {
            proof {
                assert(lines(next).drop_last() =~= before.drop_last());
                assert(chars@.subrange(start as int, i as int).push(chars@[i as int])
                    =~= chars@.subrange(start as int, i + 1));
            }
        }
        i += 1;
    }
    let ghost all = lines(chars@.subrange(0, n as int));
    push_trimmed(text, &chars, start, n, &mut out);
    proof {
        lemma_kept_of_push(all.drop_last(), all.last());
        assert(all.drop_last().push(all.last()) =~= all);
        assert(chars@.subrange(0, n as int) =~= chars@);
    }
    out
}

/// The pieces of `text` between its newline characters.
pub fn split_lines(text: &str) -> (out: Vec<String>)
    ensures
        out.deep_view() == lines(text@),
{
    let chars = chars_of(text);
    let n: usize = chars.len();
    let mut out: Vec<String> = Vec::new();
    let mut start: usize = 0;
    let mut i: usize = 0;
    assert(chars@.subrange(0, 0) =~= Seq::<char>::empty());
    assert(lines(Seq::<char>::empty()).drop_last() =~= Seq::<Seq<char>>::empty());
    assert(out.deep_view() =~= Seq::<Seq<char>>::empty());
    while i < n
        invariant
            chars@ == text@,
            n == chars.len(),
            start <= i <= n,
            lines(chars@.subrange(0, i as int)).len() >= 1,
            lines(chars@.subrange(0, i as int)).last() == chars@.subrange(start as int, i as int),
            out.deep_view() == lines(chars@.subrange(0, i as int)).drop_last(),
        decreases n - i,
    {
        let ghost before = lines(chars@.subrange(0, i as int));
        let ghost next = chars@.subrange(0, i + 1);
        assert(next.drop_last() =~= chars@.subrange(0, i as int));
        assert(next.last() == chars@[i as int]);
        if chars[i] == '\n' {
            let piece = text.substring_char(start, i).to_owned();
            let ghost shorter = out.deep_view();
            out.push(piece);
            proof {
                assert(out.deep_view() =~= shorter.push(piece@));
                assert(before.drop_last().push(before.last()) =~= before);
                assert(lines(next) == before.push(Seq::<char>::empty()));
                assert(lines(next).drop_last() =~= before);
                assert(chars@.subrange(i + 1, i + 1) =~= Seq::<char>::empty());
            }
            start = i + 1;
        } else {
            proof {
                assert(lines(next).drop_last() =~= before.drop_last());
                assert(chars@.subrange(start as int, i as int).push(chars@[i as int])
                    =~= chars@.subrange(start as int, i + 1));
            }
        }
        i += 1;
    }
    let ghost all = lines(chars@.subrange(0, n as int));
    let piece = text.substring_char(start, n).to_owned();
    let ghost shorter = out.deep_view();
    out.push(piece);
    proof {
        assert(out.deep_view() =~= shorter.push(piece@));
        assert(all.drop_last().push(all.last()) =~= all);
        assert(chars@.subrange(0, n as int) =~= chars@);
    }
    out
}

/// `Itertools::unique` on a list of strings: every string that equals an
/// earlier one is dropped, and what stays keeps its order. Strings are equal
/// when their characters are.
#[verifier::external_body]
pub(crate) fn unique_texts(texts: Vec<String>) -> (r: Vec<String>)
    ensures
        r.deep_view() == first_occurrences(texts.deep_view()),
{
    texts.into_iter().unique().collect()
}

/// The option texts that `text` lists, in order.
pub fn parse_option_texts(text: &str) -> (out: Vec<String>)
    ensures
        out.deep_view() == option_texts(text@),
{
    unique_texts(trimmed_lines(text))
}

/// No text occurs twice in `first_occurrences(s)`, and it holds exactly the
/// texts of `s`.
pub proof fn lemma_first_occurrences(s: Seq<Seq<char>>)
    ensures
        first_occurrences(s).no_duplicates(),
        forall|t: Seq<char>| first_occurrences(s).contains(t) <==> s.contains(t),
    decreases s.len(),
{
    if s.len() > 0 {
        let init = s.drop_last();
        lemma_first_occurrences(init);
        let before = first_occurrences(init);
        let out = first_occurrences(s);
        assert forall|t: Seq<char>| out.contains(t) <==> s.contains(t) by {
            if s.contains(t) {
                let i = choose|i: int| 0 <= i < s.len() && s[i] == t;
                if i < s.len() - 1 {
                    assert(init[i] == t);
                    assert(init.contains(t));
                    assert(before.contains(t));
                    let j = choose|j: int| 0 <= j < before.len() && before[j] == t;
                    assert(out[j] == t);
                } else if !before.contains(s.last()) {
                    assert(out[before.len() as int] == t);
                } else {
                    let j = choose|j: int| 0 <= j < before.len() && before[j] == t;
                    assert(out[j] == t);
                }
            }
            if out.contains(t) {
                let j = choose|j: int| 0 <= j < out.len() && out[j] == t;
                if j < before.len() {
                    assert(before[j] == t);
                    assert(before.contains(t));
                    assert(init.contains(t));
                    let i = choose|i: int| 0 <= i < init.len() && init[i] == t;
                    assert(s[i] == t);
                } else {
                    assert(s[s.len() - 1] == t);
                }
            }
        }
    }
}

/// Every kept line is trimmed and not empty.
pub proof fn lemma_kept_of_trimmed(ls: Seq<Seq<char>>)
    ensures
        forall|i: int|
            0 <= i < kept_of(ls).len() ==> (#[trigger] kept_of(ls)[i]).len() > 0 && trimmed(
                kept_of(ls)[i],
            ) == kept_of(ls)[i],
    decreases ls.len(),
{
    if ls.len() == 0 {
        ls.map_values(|l: Seq<char>| trimmed(l)).lemma_filter_len(|t: Seq<char>| t.len() > 0);
    } else {
        lemma_kept_of_trimmed(ls.drop_last());
        lemma_kept_of_push(ls.drop_last(), ls.last());
        assert(ls.drop_last().push(ls.last()) =~= ls);
        lemma_trimmed_is_fixed(ls.last());
    }
}

} // verus!
